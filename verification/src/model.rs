use vstd::prelude::*;

use crate::downloader::{
    demand_of, next, Course, Demand, Folder, Options, Outcome, Phase, Signal, Step,
};
use crate::google_drive::{join, Entry};
use crate::resolver::{Resolution, ResolveDemand, ResolveSignal};

verus! {

/// The files of a destination, as a model: each path with its content.
pub ghost struct Disk {
    pub files: Map<Seq<char>, Seq<u8>>,
}

/// What one transfer does, as a model.
pub ghost struct Fetched {
    /// Whether the byte stream came through to its end.
    pub complete: bool,
    /// The bytes that reached the file; none where no file was created.
    pub written: Option<Seq<u8>>,
}

/// What the remote service delivers, as a model: for an identifier and the
/// number of the attempt, 0 for the first transfer and 1 for the retry.
pub type Remote = spec_fn(Seq<char>, nat) -> Fetched;

impl Disk {
    /// A destination without any file.
    pub open spec fn empty() -> Disk {
        Disk { files: Map::empty() }
    }

    /// Whether a file stands at `path`.
    pub open spec fn holds(self, path: Seq<char>) -> bool {
        self.files.contains_key(path)
    }

    /// The disk after a transfer to `dest`: what was written replaces what
    /// was there; where nothing was created, nothing changes.
    pub open spec fn receive(self, dest: Seq<char>, fetched: Fetched) -> Disk {
        match fetched.written {
            Some(bytes) => Disk { files: self.files.insert(dest, bytes) },
            None => self,
        }
    }

    /// The disk after the file at `dest` was deleted.
    pub open spec fn without(self, dest: Seq<char>) -> Disk {
        Disk { files: self.files.remove(dest) }
    }
}

/// A world that serves a demand: the disk afterwards and the signal that
/// goes back.
pub open spec fn serve(demand: Demand, disk: Disk, remote: Remote) -> (Disk, Signal) {
    match demand {
        Demand::CreateDir { path } => (disk, Signal::Ready(Folder::Created)),
        Demand::Probe { dest } => (disk, Signal::Exists(disk.holds(dest))),
        Demand::Transfer { id, dir, dest } => (
            disk.receive(dest, remote(id, 0)),
            Signal::Transferred(remote(id, 0).complete),
        ),
        Demand::Retry { id, dir, dest } => (
            disk.without(dest).receive(dest, remote(id, 1)),
            Signal::Transferred(remote(id, 1).complete),
        ),
        Demand::ReadBack { dest } => (disk, Signal::Content(disk.files[dest])),
        Demand::Finished => (disk, Signal::Ready(Folder::Existed)),
    }
}

/// Whether a demand brings bytes from the remote service.
pub open spec fn is_transfer(demand: Demand) -> bool {
    demand is Transfer || demand is Retry
}

/// How one leaf fares in a world.
pub ghost struct LeafRun {
    pub phase: Phase,
    pub disk: Disk,
    /// How many transfers were made.
    pub transfers: nat,
}

/// A leaf in `phase` taken through a world until it settles, for `fuel`
/// demands at most.
pub open spec fn run_leaf(
    e: Entry,
    o: Options,
    phase: Phase,
    disk: Disk,
    remote: Remote,
    fuel: nat,
) -> LeafRun
    decreases fuel,
{
    if fuel == 0 || phase is Settled {
        LeafRun { phase, disk, transfers: 0 }
    } else {
        let demand = demand_of(e, phase);
        let served = serve(demand, disk, remote);
        let rest = run_leaf(e, o, next(e, o, phase, served.1), served.0, remote, (fuel - 1) as nat);
        LeafRun {
            transfers: rest.transfers + (if is_transfer(demand) {
                1nat
            } else {
                0nat
            }),
            ..rest
        }
    }
}

/// The number of demands within which every leaf settles.
pub open spec fn leaf_fuel() -> nat {
    5
}

/// How one leaf fares in a world, from the beginning.
pub open spec fn settle_leaf(e: Entry, o: Options, disk: Disk, remote: Remote) -> LeafRun {
    run_leaf(e, o, Phase::Pending, disk, remote, leaf_fuel())
}

/// What a run over some stops leaves behind.
pub ghost struct Tally {
    /// How each leaf ended, in order.
    pub outcomes: Seq<Outcome>,
    /// The leaves noted as to be transferred, in order.
    pub planned: Seq<Entry>,
    /// The leaves for which a transfer was made, in order.
    pub written: Seq<Entry>,
    pub disk: Disk,
}

/// Whether an outcome comes of a transfer.
pub open spec fn came_of_transfer(outcome: Outcome) -> bool {
    !(outcome is Planned) && !(outcome is Skipped)
}

/// A run over `steps` in a world, one stop after the other. A directory
/// leaves the files as they are.
pub open spec fn run_steps(steps: Seq<Step>, o: Options, disk: Disk, remote: Remote) -> Tally
    decreases steps.len(),
{
    if steps.len() == 0 {
        Tally { outcomes: Seq::empty(), planned: Seq::empty(), written: Seq::empty(), disk }
    } else {
        let before = run_steps(steps.drop_last(), o, disk, remote);
        match steps.last() {
            Step::Directory(_) => before,
            Step::File(e) => {
                let leaf = settle_leaf(e, o, before.disk, remote);
                let outcome = leaf.phase->Settled_0;
                Tally {
                    outcomes: before.outcomes.push(outcome),
                    planned: if outcome is Planned {
                        before.planned.push(e)
                    } else {
                        before.planned
                    },
                    written: if came_of_transfer(outcome) {
                        before.written.push(e)
                    } else {
                        before.written
                    },
                    disk: leaf.disk,
                }
            },
        }
    }
}

/// The leaves among some stops, in order.
pub open spec fn leaves(steps: Seq<Step>) -> Seq<Entry>
    decreases steps.len(),
{
    if steps.len() == 0 {
        Seq::empty()
    } else {
        match steps.last() {
            Step::Directory(_) => leaves(steps.drop_last()),
            Step::File(e) => leaves(steps.drop_last()).push(e),
        }
    }
}

/// A walk taken through a world: each demand is served and the signal is
/// handed back, until the walk is finished, for `fuel` demands at most.
pub open spec fn run_course(course: Course, disk: Disk, remote: Remote, fuel: nat) -> (
    Course,
    Disk,
)
    decreases fuel,
{
    if fuel == 0 || course.finished() {
        (course, disk)
    } else {
        let served = serve(course.demand(), disk, remote);
        run_course(course.advance(served.1), served.0, remote, (fuel - 1) as nat)
    }
}

/// What the remote service lists, as a model: for each identifier its
/// children in listing order, or nothing where the service fails.
pub type Catalog = spec_fn(Seq<char>) -> Option<Seq<Entry>>;

/// Some resolved entries, and how many listings it took to resolve them.
pub ghost struct Unfolded {
    pub entries: Seq<Entry>,
    pub fetches: nat,
}

/// The entry `e` resolved below `dir` with all that the catalog holds below
/// it, and the number of listings that takes. There is none where a
/// listing fails or where the tree is deeper than `depth`.
pub open spec fn unfold_entry(catalog: Catalog, e: Entry, dir: Seq<char>, depth: nat) -> Option<
    (Entry, nat),
>
    decreases depth, 0nat, 0nat,
{
    if !e.is_folder() {
        Some((e.put_in(dir), 0nat))
    } else if depth == 0 {
        None
    } else {
        match catalog(e.id) {
            None => None,
            Some(listing) => match unfold_all(
                catalog,
                listing,
                join(dir, e.title),
                (depth - 1) as nat,
            ) {
                Some(below) => Some((e.put_in(dir).holding(below.entries), below.fetches + 1)),
                None => None,
            },
        }
    }
}

/// The entries of a listing resolved below `dir`, each with all that the
/// catalog holds below it, in listing order.
pub open spec fn unfold_all(catalog: Catalog, listing: Seq<Entry>, dir: Seq<char>, depth: nat) -> Option<
    Unfolded,
>
    decreases depth, 1nat, listing.len(),
{
    if listing.len() == 0 {
        Some(Unfolded { entries: Seq::empty(), fetches: 0 })
    } else {
        match (
            unfold_entry(catalog, listing.first(), dir, depth),
            unfold_all(catalog, listing.drop_first(), dir, depth),
        ) {
            (Some(head), Some(tail)) => Some(
                Unfolded {
                    entries: seq![head.0] + tail.entries,
                    fetches: head.1 + tail.fetches,
                },
            ),
            _ => None,
        }
    }
}

/// A remote service that answers a resolution: the page where the page is
/// asked for, and what the catalog lists where a listing is.
pub open spec fn answer(r: Resolution, html: Seq<char>, catalog: Catalog) -> ResolveSignal {
    match r.demand() {
        ResolveDemand::Page { url } => ResolveSignal::Html(html),
        _ => match catalog(r.target()) {
            Some(listing) => ResolveSignal::Listing(listing),
            None => ResolveSignal::RemoteError,
        },
    }
}

/// A resolution taken through a remote service until it is over, for
/// `fuel` requests at most.
pub open spec fn run_resolution(r: Resolution, html: Seq<char>, catalog: Catalog, fuel: nat) -> Resolution
    decreases fuel,
{
    if fuel == 0 || r.outcome() is Some {
        r
    } else {
        run_resolution(r.advance(answer(r, html, catalog)), html, catalog, (fuel - 1) as nat)
    }
}

} // verus!
