use vstd::prelude::*;

use crate::checksum::{md5_of, verdict};
use crate::downloader::{
    demand_of, next, plan, shallow, walk, walk_all, Course, Options, Outcome, Phase, Signal, Step,
};
use crate::google_drive::{each_placed, join, resolved_is_placed, Entry};
use crate::model::{
    answer, came_of_transfer, leaves, run_course, run_leaf, run_resolution, run_steps, serve,
    settle_leaf, unfold_all, unfold_entry, Catalog, Disk, Fetched, Remote, Tally,
};
use crate::resolver::{Level, Resolution, ResolutionError, ResolveSignal};
use crate::web::{regex_capture, KEY_PATTERN};

verus! {

/// In a resolved tree every child of a container has as its local path the
/// container's local path, a slash and the container's title, and is itself
/// resolved below that path.
pub proof fn child_path_follows_parent(parent: Entry, dir: Seq<char>, i: int)
    requires
        parent.resolved_in(dir),
        parent.is_folder(),
        parent.children is Some ==> 0 <= i < parent.children->0.len(),
    ensures
        parent.children is Some,
        parent.children->0[i].path == Some(join(parent.path->0, parent.title)),
        parent.children->0[i].resolved_in(join(parent.path->0, parent.title)),
{
    reveal_with_fuel(Entry::resolved_in, 2);
}

/// The collection a resolution ends with is resolved below the folder that
/// was asked for: the entries of the top level have the folder's name as
/// their local path.
pub proof fn resolution_ends_resolved(r: Resolution, i: int)
    requires
        r.wf(),
        r.outcome() matches Some(Ok(page)) && 0 <= i < page.len(),
    ensures
        r.result[i].path == Some(r.folder),
        r.result[i].resolved_in(r.folder),
{
}

/// A collection that is resolved below some directory is placed, so that a
/// walk can be laid out over it.
pub proof fn resolved_collection_is_placed(page: Seq<Entry>, dir: Seq<char>)
    requires
        forall|i: int| 0 <= i < page.len() ==> (#[trigger] page[i]).resolved_in(dir),
    ensures
        each_placed(page),
{
    assert forall|i: int| 0 <= i < page.len() implies (#[trigger] page[i]).placed() by {
        resolved_is_placed(page[i], dir);
    }
}

/// A walk that does not descend stops at leaves of the top level only: no
/// directory is asked for, and nothing below a container is visited.
pub proof fn shallow_walk_stays_on_top(page: Seq<Entry>, dry_run: bool, k: int)
    requires
        0 <= k < plan(page, false, dry_run).len(),
    ensures
        plan(page, false, dry_run)[k] is File,
        !plan(page, false, dry_run)[k]->File_0.is_folder(),
        exists|j: int| 0 <= j < page.len() && page[j] == plan(page, false, dry_run)[k]->File_0,
    decreases page.len(),
{
    if page.len() > 0 {
        let front = page.drop_last();
        if k < shallow(front).len() {
            shallow_walk_stays_on_top(front, dry_run, k);
            let j = choose|j: int| 0 <= j < front.len() && front[j] == shallow(front)[k]->File_0;
            assert(page[j] == front[j]);
        } else {
            assert(page[page.len() - 1] == page.last());
        }
    }
}

/// A settled leaf stays as it is, whatever is reported.
pub proof fn settled_is_final(e: Entry, o: Options, outcome: Outcome, signal: Signal)
    ensures
        next(e, o, Phase::Settled(outcome), signal) == Phase::Settled(outcome),
{
}

/// How many transfers a leaf in `phase` can still ask for.
pub open spec fn transfers_ahead(phase: Phase) -> nat {
    match phase {
        Phase::Pending | Phase::Transferring => 2,
        Phase::Transferred | Phase::RetriedOnce => 1,
        _ => 0,
    }
}

/// No leaf asks for more than two transfers: each phase has a bound on the
/// transfers still ahead, no report raises it, and a transfer that is
/// answered lowers it.
pub proof fn transfers_are_bounded(e: Entry, o: Options, phase: Phase, signal: Signal)
    ensures
        transfers_ahead(phase) <= 2,
        transfers_ahead(next(e, o, phase, signal)) <= transfers_ahead(phase),
        phase is RetriedOnce && signal is Transferred ==> transfers_ahead(
            next(e, o, phase, signal),
        ) < transfers_ahead(phase),
        phase is Transferring && signal is Transferred ==> !(next(e, o, phase, signal)
            is Transferring),
{
}

/// In every world a leaf settles within five demands, after two transfers at most.
pub proof fn leaf_settles(e: Entry, o: Options, disk: Disk, remote: Remote)
    ensures
        settle_leaf(e, o, disk, remote).phase is Settled,
        settle_leaf(e, o, disk, remote).transfers <= 2,
{
    reveal_with_fuel(run_leaf, 6);
}

/// Where a forcing run verifies checksums and both the first transfer of a
/// leaf and its retry bring content that does not match the declared
/// checksum, the leaf is transferred exactly twice and ends as a terminal
/// mismatch.
pub proof fn mismatch_is_retried_once(
    e: Entry,
    o: Options,
    disk: Disk,
    remote: Remote,
    first: Seq<u8>,
    second: Seq<u8>,
)
    requires
        o.force,
        o.verify_checksum,
        !o.dry_run,
        e.checksum is Some,
        remote(e.id, 0) == (Fetched { complete: true, written: Some(first) }),
        remote(e.id, 1) == (Fetched { complete: true, written: Some(second) }),
        verdict(e.checksum, md5_of(first)) is Mismatch,
        verdict(e.checksum, md5_of(second)) is Mismatch,
    ensures
        settle_leaf(e, o, disk, remote).phase == Phase::Settled(Outcome::TerminalMismatch),
        settle_leaf(e, o, disk, remote).transfers == 2,
        ({
            let probed = next(e, o, Phase::Pending, Signal::Exists(disk.holds(e.destination())));
            let fetched = next(e, o, probed, Signal::Transferred(true));
            let judged = next(e, o, fetched, Signal::Content(first));
            let refetched = next(e, o, judged, Signal::Transferred(true));
            let rejudged = next(e, o, refetched, Signal::Content(second));
            &&& probed == Phase::Transferring
            &&& fetched == Phase::Transferred
            &&& judged == Phase::RetriedOnce
            &&& refetched == Phase::Retransferred
            &&& rejudged == Phase::Settled(Outcome::TerminalMismatch)
        }),
{
    reveal_with_fuel(run_leaf, 6);
    let dest = e.destination();
    let d1 = disk.receive(dest, remote(e.id, 0));
    assert(d1.files[dest] == first);
    let d2 = d1.without(dest).receive(dest, remote(e.id, 1));
    assert(d2.files[dest] == second);
}

/// What a dry run does with one leaf: it changes no file and makes no
/// transfer, and it notes the leaf exactly where the file is missing or the
/// run forces; every other leaf is skipped.
pub proof fn dry_leaf_writes_nothing(e: Entry, o: Options, disk: Disk, remote: Remote)
    requires
        o.dry_run,
    ensures
        settle_leaf(e, o, disk, remote).disk == disk,
        settle_leaf(e, o, disk, remote).transfers == 0,
        settle_leaf(e, o, disk, remote).phase is Settled,
        settle_leaf(e, o, disk, remote).phase->Settled_0 is Planned <==> (!disk.holds(
            e.destination(),
        ) || o.force),
        !(settle_leaf(e, o, disk, remote).phase->Settled_0 is Planned) ==> settle_leaf(
            e,
            o,
            disk,
            remote,
        ).phase->Settled_0 is Skipped,
{
    reveal_with_fuel(run_leaf, 6);
}

/// What a run that writes does with one leaf: it transfers the leaf exactly
/// where the file is missing or the run forces, and else skips it and
/// changes nothing; no file but the leaf's own is touched.
pub proof fn wet_leaf_touches_its_file(e: Entry, o: Options, disk: Disk, remote: Remote)
    requires
        !o.dry_run,
    ensures
        settle_leaf(e, o, disk, remote).phase is Settled,
        came_of_transfer(settle_leaf(e, o, disk, remote).phase->Settled_0) <==> (!disk.holds(
            e.destination(),
        ) || o.force),
        !came_of_transfer(settle_leaf(e, o, disk, remote).phase->Settled_0) ==> {
            &&& settle_leaf(e, o, disk, remote).phase->Settled_0 is Skipped
            &&& settle_leaf(e, o, disk, remote).disk == disk
            &&& settle_leaf(e, o, disk, remote).transfers == 0
        },
        forall|p: Seq<char>|
            p != e.destination() ==> (#[trigger] settle_leaf(e, o, disk, remote).disk.holds(p)
                == disk.holds(p)),
        !o.force ==> forall|p: Seq<char>|
            disk.holds(p) ==> #[trigger] settle_leaf(e, o, disk, remote).disk.holds(p),
        !o.force && remote(e.id, 0).written is Some ==> settle_leaf(e, o, disk, remote).disk.holds(
            e.destination(),
        ),
{
    reveal_with_fuel(run_leaf, 6);
    let dest = e.destination();
    let d1 = disk.receive(dest, remote(e.id, 0));
    let d2 = d1.without(dest).receive(dest, remote(e.id, 1));
    assert(d1.files.dom() =~= d1.files.dom());
    assert forall|p: Seq<char>| p != dest implies (#[trigger] settle_leaf(
        e,
        o,
        disk,
        remote,
    ).disk.holds(p) == disk.holds(p)) by {
        assert(d1.holds(p) == disk.holds(p));
        assert(d2.holds(p) == disk.holds(p));
    }
}

/// The leaves among the stops of two runs, one after the other.
pub proof fn leaves_of_joined(a: Seq<Step>, b: Seq<Step>)
    ensures
        leaves(a + b) == leaves(a) + leaves(b),
    decreases b.len(),
{
    if b.len() == 0 {
        assert(a + b =~= a);
        assert(leaves(a) + leaves(b) =~= leaves(a));
    } else {
        assert((a + b).drop_last() =~= a + b.drop_last());
        assert((a + b).last() == b.last());
        leaves_of_joined(a, b.drop_last());
        match b.last() {
            Step::Directory(_) => {},
            Step::File(e) => {
                assert(leaves(a) + leaves(b.drop_last()).push(e) =~= (leaves(a) + leaves(
                    b.drop_last(),
                )).push(e));
            },
        }
    }
}

/// A dry walk over an entry stops at the same leaves as one that writes.
pub proof fn dry_walk_has_the_same_leaves(e: Entry)
    ensures
        leaves(walk(e, true)) == leaves(walk(e, false)),
    decreases e, 0nat,
{
    if e.is_folder() {
        let dir = seq![Step::Directory(e.destination())];
        assert(dir.drop_last() =~= Seq::<Step>::empty());
        assert(leaves(dir) =~= Seq::<Entry>::empty()) by {
            reveal_with_fuel(leaves, 2);
        }
        match e.children {
            Some(c) => {
                dry_walks_have_the_same_leaves(c);
                leaves_of_joined(dir, walk_all(c, false));
                leaves_of_joined(Seq::<Step>::empty(), walk_all(c, true));
                assert(Seq::<Step>::empty() + walk_all(c, true) =~= walk_all(c, true));
                assert(leaves(Seq::<Step>::empty()) + leaves(walk_all(c, true)) =~= leaves(
                    walk_all(c, true),
                ));
                assert(leaves(dir) + leaves(walk_all(c, false)) =~= leaves(walk_all(c, false)));
            },
            None => {},
        }
    }
}

/// A dry walk over some entries stops at the same leaves as one that writes.
pub proof fn dry_walks_have_the_same_leaves(entries: Seq<Entry>)
    ensures
        leaves(walk_all(entries, true)) == leaves(walk_all(entries, false)),
    decreases entries, 1nat,
{
    if entries.len() > 0 {
        dry_walks_have_the_same_leaves(entries.drop_last());
        dry_walk_has_the_same_leaves(entries.last());
        leaves_of_joined(walk_all(entries.drop_last(), true), walk(entries.last(), true));
        leaves_of_joined(walk_all(entries.drop_last(), false), walk(entries.last(), false));
    }
}

/// No two leaves among the stops go to the same file.
pub open spec fn distinct_destinations(steps: Seq<Step>) -> bool {
    forall|i: int, j: int|
        0 <= i < j < steps.len() && (#[trigger] steps[i]) is File && (#[trigger] steps[j])
            is File ==> steps[i]->File_0.destination() != steps[j]->File_0.destination()
}

/// Some leaf among the stops goes to `path`.
pub open spec fn is_destination(steps: Seq<Step>, path: Seq<char>) -> bool {
    exists|i: int|
        0 <= i < steps.len() && (#[trigger] steps[i]) is File && steps[i]->File_0.destination()
            == path
}

/// A dry run on an empty destination notes every leaf and leaves the
/// destination empty.
pub proof fn dry_run_notes_every_leaf(steps: Seq<Step>, o: Options, remote: Remote)
    requires
        o.dry_run,
    ensures
        run_steps(steps, o, Disk::empty(), remote).planned == leaves(steps),
        run_steps(steps, o, Disk::empty(), remote).disk == Disk::empty(),
        run_steps(steps, o, Disk::empty(), remote).written.len() == 0,
    decreases steps.len(),
{
    if steps.len() > 0 {
        dry_run_notes_every_leaf(steps.drop_last(), o, remote);
        match steps.last() {
            Step::Directory(_) => {},
            Step::File(e) => {
                dry_leaf_writes_nothing(e, o, Disk::empty(), remote);
            },
        }
    }
}

/// A run that writes, begun on an empty destination, transfers every leaf,
/// provided that it forces or that no two leaves go to the same file. All
/// that it leaves on the disk is where some leaf goes.
pub proof fn run_transfers_every_leaf(steps: Seq<Step>, o: Options, remote: Remote)
    requires
        !o.dry_run,
        o.force || distinct_destinations(steps),
    ensures
        run_steps(steps, o, Disk::empty(), remote).written == leaves(steps),
        run_steps(steps, o, Disk::empty(), remote).planned.len() == 0,
        forall|p: Seq<char>| #[trigger]
            run_steps(steps, o, Disk::empty(), remote).disk.holds(p) ==> is_destination(steps, p),
    decreases steps.len(),
{
    if steps.len() > 0 {
        let front = steps.drop_last();
        assert(o.force || distinct_destinations(front)) by {
            if !o.force {
                assert forall|i: int, j: int|
                    0 <= i < j < front.len() && (#[trigger] front[i]) is File && (
                    #[trigger] front[j]) is File implies front[i]->File_0.destination()
                    != front[j]->File_0.destination() by {
                    assert(steps[i] == front[i]);
                    assert(steps[j] == front[j]);
                }
            }
        }
        run_transfers_every_leaf(front, o, remote);
        let before = run_steps(front, o, Disk::empty(), remote);
        let after = run_steps(steps, o, Disk::empty(), remote);
        assert forall|p: Seq<char>| is_destination(front, p) implies is_destination(steps, p) by {
            let i = choose|i: int|
                0 <= i < front.len() && (#[trigger] front[i]) is File
                    && front[i]->File_0.destination() == p;
            assert(steps[i] == front[i]);
        }
        match steps.last() {
            Step::Directory(_) => {},
            Step::File(e) => {
                wet_leaf_touches_its_file(e, o, before.disk, remote);
                let last = steps.len() - 1;
                assert(steps[last] == Step::File(e));
                if !o.force && before.disk.holds(e.destination()) {
                    let i = choose|i: int|
                        0 <= i < front.len() && (#[trigger] front[i]) is File
                            && front[i]->File_0.destination() == e.destination();
                    assert(steps[i] == front[i]);
                    assert(false);
                }
                assert forall|p: Seq<char>| #[trigger] after.disk.holds(p) implies is_destination(
                    steps,
                    p,
                ) by {
                    if p != e.destination() {
                        assert(before.disk.holds(p));
                    }
                }
            },
        }
    }
}

/// The leaves a dry run reports are the leaves that the same run would
/// transfer if it wrote: begun on an empty destination, with the same
/// options but for the dry run itself, both hold the same leaves in the same
/// order. This is stated for runs that force and for collections in which no
/// two leaves go to the same file: of two leaves with one destination a run
/// that writes without forcing transfers the first and skips the second.
pub proof fn dry_run_reports_what_is_written(
    page: Seq<Entry>,
    recursive: bool,
    o: Options,
    remote: Remote,
)
    requires
        o.dry_run,
        o.force || distinct_destinations(plan(page, recursive, false)),
    ensures
        run_steps(plan(page, recursive, true), o, Disk::empty(), remote).planned == run_steps(
            plan(page, recursive, false),
            (Options { dry_run: false, ..o }),
            Disk::empty(),
            remote,
        ).written,
{
    dry_run_notes_every_leaf(plan(page, recursive, true), o, remote);
    run_transfers_every_leaf(
        plan(page, recursive, false),
        Options { dry_run: false, ..o },
        remote,
    );
    if recursive {
        dry_walks_have_the_same_leaves(page);
    }
}

/// A leaf is noted by a dry run exactly where a run that writes would
/// transfer it, whatever the probe of its destination finds.
pub proof fn dry_leaf_is_noted_where_it_is_written(e: Entry, o: Options, found: bool)
    requires
        o.dry_run,
    ensures
        next(e, o, Phase::Pending, Signal::Exists(found)) == Phase::Settled(Outcome::Planned)
            <==> next(e, (Options { dry_run: false, ..o }), Phase::Pending, Signal::Exists(found))
            == Phase::Transferring,
{
}

/// Every file that the stops go to is on the disk.
pub open spec fn all_held(steps: Seq<Step>, disk: Disk) -> bool {
    forall|i: int|
        0 <= i < steps.len() && (#[trigger] steps[i]) is File ==> disk.holds(
            steps[i]->File_0.destination(),
        )
}

/// Every transfer creates its file.
pub open spec fn always_writes(remote: Remote) -> bool {
    forall|id: Seq<char>, attempt: nat| (#[trigger] remote(id, attempt)).written is Some
}

/// After a run that writes without forcing, every file that the stops go
/// to is there, provided that every transfer creates its file; and nothing
/// that was there before is gone.
pub proof fn run_leaves_every_file(steps: Seq<Step>, o: Options, disk: Disk, remote: Remote)
    requires
        !o.dry_run,
        !o.force,
        always_writes(remote),
    ensures
        all_held(steps, run_steps(steps, o, disk, remote).disk),
        forall|p: Seq<char>|
            disk.holds(p) ==> #[trigger] run_steps(steps, o, disk, remote).disk.holds(p),
    decreases steps.len(),
{
    if steps.len() > 0 {
        let front = steps.drop_last();
        run_leaves_every_file(front, o, disk, remote);
        let before = run_steps(front, o, disk, remote);
        let after = run_steps(steps, o, disk, remote);
        match steps.last() {
            Step::Directory(_) => {
                assert forall|i: int| 0 <= i < steps.len() && (#[trigger] steps[i])
                    is File implies after.disk.holds(steps[i]->File_0.destination()) by {
                    assert(steps[i] == front[i]);
                }
            },
            Step::File(e) => {
                wet_leaf_touches_its_file(e, o, before.disk, remote);
                assert(remote(e.id, 0).written is Some);
                assert forall|i: int| 0 <= i < steps.len() && (#[trigger] steps[i])
                    is File implies after.disk.holds(steps[i]->File_0.destination()) by {
                    if i < front.len() {
                        assert(steps[i] == front[i]);
                        assert(before.disk.holds(front[i]->File_0.destination()));
                    }
                }
                assert forall|p: Seq<char>| disk.holds(p) implies #[trigger] after.disk.holds(
                    p,
                ) by {
                    assert(before.disk.holds(p));
                }
            },
        }
    }
}

/// A run that does not force, on a disk that holds every file the stops go
/// to, skips every leaf, makes no transfer and changes no file.
pub proof fn run_skips_what_is_there(steps: Seq<Step>, o: Options, disk: Disk, remote: Remote)
    requires
        !o.dry_run,
        !o.force,
        all_held(steps, disk),
    ensures
        run_steps(steps, o, disk, remote).disk == disk,
        run_steps(steps, o, disk, remote).written.len() == 0,
        run_steps(steps, o, disk, remote).outcomes.len() == leaves(steps).len(),
        forall|i: int|
            0 <= i < run_steps(steps, o, disk, remote).outcomes.len() ==> (#[trigger] run_steps(
                steps,
                o,
                disk,
                remote,
            ).outcomes[i]) is Skipped,
    decreases steps.len(),
{
    if steps.len() > 0 {
        let front = steps.drop_last();
        assert(all_held(front, disk)) by {
            assert forall|i: int| 0 <= i < front.len() && (#[trigger] front[i])
                is File implies disk.holds(front[i]->File_0.destination()) by {
                assert(steps[i] == front[i]);
            }
        }
        run_skips_what_is_there(front, o, disk, remote);
        match steps.last() {
            Step::Directory(_) => {},
            Step::File(e) => {
                assert(steps[steps.len() - 1] == Step::File(e));
                wet_leaf_touches_its_file(e, o, disk, remote);
            },
        }
    }
}

/// Running twice without forcing: where every transfer of the first run
/// creates its file, the second run on what the first left behind skips
/// every leaf, makes no transfer and changes no file, whatever the remote
/// service would deliver.
pub proof fn second_run_skips_every_leaf(
    steps: Seq<Step>,
    o: Options,
    disk: Disk,
    first: Remote,
    second: Remote,
)
    requires
        !o.dry_run,
        !o.force,
        always_writes(first),
    ensures
        ({
            let once = run_steps(steps, o, disk, first);
            let twice = run_steps(steps, o, once.disk, second);
            &&& twice.disk == once.disk
            &&& twice.written.len() == 0
            &&& twice.outcomes.len() == leaves(steps).len()
            &&& forall|i: int| 0 <= i < twice.outcomes.len() ==> (#[trigger] twice.outcomes[i]) is Skipped
        }),
{
    run_leaves_every_file(steps, o, disk, first);
    run_skips_what_is_there(steps, o, run_steps(steps, o, disk, first).disk, second);
}

/// The walk over `steps` that stands at the stop `cursor`, with what a run
/// over the stops before it has left behind.
pub open spec fn course_at(steps: Seq<Step>, o: Options, cursor: int, phase: Phase, tally: Tally) -> Course {
    Course {
        options: o,
        steps,
        cursor,
        phase,
        outcomes: tally.outcomes,
        planned: tally.planned,
    }
}

/// A walk that stands in the middle of a leaf ends as the run over all its
/// stops does.
proof fn course_finishes_leaf(
    steps: Seq<Step>,
    o: Options,
    disk: Disk,
    remote: Remote,
    k: int,
    phase: Phase,
    now: Disk,
    leaf_left: nat,
    fuel: nat,
)
    requires
        0 <= k < steps.len(),
        steps[k] is File,
        !(phase is Settled),
        leaf_left <= 5,
        fuel >= leaf_left + 5 * (steps.len() - k - 1),
        ({
            let e = steps[k]->File_0;
            let whole = settle_leaf(e, o, run_steps(steps.take(k), o, disk, remote).disk, remote);
            let rest = run_leaf(e, o, phase, now, remote, leaf_left);
            &&& whole.phase is Settled
            &&& rest.phase == whole.phase
            &&& rest.disk == whole.disk
        }),
    ensures
        run_course(
            course_at(steps, o, k, phase, run_steps(steps.take(k), o, disk, remote)),
            now,
            remote,
            fuel,
        ) == (
            course_at(steps, o, steps.len() as int, Phase::Pending, run_steps(steps, o, disk, remote)),
            run_steps(steps, o, disk, remote).disk,
        ),
    decreases steps.len() - k, leaf_left,
{
    let e = steps[k]->File_0;
    let tally = run_steps(steps.take(k), o, disk, remote);
    let course = course_at(steps, o, k, phase, tally);
    let served = serve(course.demand(), now, remote);
    let then = next(e, o, phase, served.1);
    let whole = settle_leaf(e, o, tally.disk, remote);
    let rest = run_leaf(e, o, phase, now, remote, leaf_left);
    let after = run_leaf(e, o, then, served.0, remote, (leaf_left - 1) as nat);
    assert(leaf_left > 0);
    assert(rest.phase == after.phase && rest.disk == after.disk);
    assert(course.demand() == demand_of(e, phase));
    assert(steps.take(k + 1).drop_last() =~= steps.take(k));
    assert(steps.take(k + 1).last() == steps[k]);
    match then {
        Phase::Settled(outcome) => {
            let grown = run_steps(steps.take(k + 1), o, disk, remote);
            assert(after.phase == then && after.disk == served.0);
            assert(grown.outcomes == tally.outcomes.push(outcome));
            assert(grown.disk == served.0);
            assert(course.advance(served.1) == course_at(steps, o, k + 1, Phase::Pending, grown));
            course_finishes(steps, o, disk, remote, k + 1, (fuel - 1) as nat);
        },
        _ => {
            assert(course.advance(served.1) == course_at(steps, o, k, then, tally));
            course_finishes_leaf(
                steps,
                o,
                disk,
                remote,
                k,
                then,
                served.0,
                (leaf_left - 1) as nat,
                (fuel - 1) as nat,
            );
        },
    }
}

/// A walk that stands before the stop `k` ends as the run over all its
/// stops does.
proof fn course_finishes(
    steps: Seq<Step>,
    o: Options,
    disk: Disk,
    remote: Remote,
    k: int,
    fuel: nat,
)
    requires
        0 <= k <= steps.len(),
        fuel >= 5 * (steps.len() - k),
    ensures
        run_course(
            course_at(steps, o, k, Phase::Pending, run_steps(steps.take(k), o, disk, remote)),
            run_steps(steps.take(k), o, disk, remote).disk,
            remote,
            fuel,
        ) == (
            course_at(steps, o, steps.len() as int, Phase::Pending, run_steps(steps, o, disk, remote)),
            run_steps(steps, o, disk, remote).disk,
        ),
    decreases steps.len() - k, 6nat,
{
    let tally = run_steps(steps.take(k), o, disk, remote);
    let course = course_at(steps, o, k, Phase::Pending, tally);
    if k == steps.len() {
        assert(steps.take(k) =~= steps);
    } else {
        assert(steps.take(k + 1).drop_last() =~= steps.take(k));
        assert(steps.take(k + 1).last() == steps[k]);
        match steps[k] {
            Step::Directory(_) => {
                let served = serve(course.demand(), tally.disk, remote);
                assert(course.advance(served.1) == course_at(
                    steps,
                    o,
                    k + 1,
                    Phase::Pending,
                    run_steps(steps.take(k + 1), o, disk, remote),
                ));
                course_finishes(steps, o, disk, remote, k + 1, (fuel - 1) as nat);
            },
            Step::File(e) => {
                leaf_settles(e, o, tally.disk, remote);
                course_finishes_leaf(steps, o, disk, remote, k, Phase::Pending, tally.disk, 5, fuel);
            },
        }
    }
}

/// The walk and the run agree: a walk over `steps` that is taken through a
/// world from its beginning, with five demands allowed for each stop, ends
/// finished, with the outcomes, the noted leaves and the disk of the run
/// over the same stops.
pub proof fn walk_ends_as_the_run(steps: Seq<Step>, o: Options, disk: Disk, remote: Remote)
    ensures
        run_course(Course::start(o, steps), disk, remote, 5 * steps.len()) == (
            course_at(steps, o, steps.len() as int, Phase::Pending, run_steps(steps, o, disk, remote)),
            run_steps(steps, o, disk, remote).disk,
        ),
{
    assert(steps.take(0) =~= Seq::<Step>::empty());
    course_finishes(steps, o, disk, remote, 0, 5 * steps.len());
}

/// A failure of the remote service ends a resolution that waits for it, and
/// leaves no tree.
pub proof fn remote_failure_ends_the_resolution(r: Resolution)
    requires
        r.stage is AwaitingPage || r.stage is AwaitingListing,
    ensures
        r.advance(ResolveSignal::RemoteError).outcome() == Some(
            Err::<Seq<Entry>, ResolutionError>(
                ResolutionError::Remote,
            ),
        ),
{
}

/// The resolution with the entries that wait at its last level replaced
/// by `found`, all done.
pub open spec fn worked_through(r: Resolution, found: Seq<Entry>) -> Resolution {
    let top = r.levels.last();
    Resolution {
        levels: r.levels.drop_last().push(
            Level { waiting: Seq::empty(), done: top.done + found, ..top },
        ),
        ..r
    }
}

/// Working through a listing comes to the same as having every entry of it
/// resolved at once, after as many requests as there are containers below.
proof fn listing_is_worked_through(
    r: Resolution,
    html: Seq<char>,
    catalog: Catalog,
    depth: nat,
    fuel: nat,
)
    requires
        r.stage is AwaitingListing,
        r.levels.len() > 0,
        r.awaited is None,
        unfold_all(catalog, r.levels.last().waiting, r.levels.last().dir, depth) is Some,
        fuel >= unfold_all(catalog, r.levels.last().waiting, r.levels.last().dir, depth)->0.fetches,
    ensures
        ({
            let found = unfold_all(catalog, r.levels.last().waiting, r.levels.last().dir, depth)->0;
            run_resolution(r.settle(), html, catalog, fuel) == run_resolution(
                worked_through(r, found.entries).settle(),
                html,
                catalog,
                (fuel - found.fetches) as nat,
            )
        }),
    decreases depth, r.levels.last().waiting.len(),
{
    let top = r.levels.last();
    let below = r.levels.drop_last();
    let found = unfold_all(catalog, top.waiting, top.dir, depth)->0;
    if top.waiting.len() == 0 {
        assert(top.done + found.entries =~= top.done);
        assert(top.waiting =~= Seq::<Entry>::empty());
        assert(worked_through(r, found.entries).levels =~= r.levels);
        assert(worked_through(r, found.entries) == r);
    } else {
        let first = top.waiting.first();
        let item = first.put_in(top.dir);
        let rest = Level { waiting: top.waiting.drop_first(), ..top };
        let head = unfold_entry(catalog, first, top.dir, depth)->0;
        let tail = unfold_all(catalog, top.waiting.drop_first(), top.dir, depth)->0;
        assert(found.entries == seq![head.0] + tail.entries);
        if !item.is_folder() {
            let fuller = Level { done: rest.done.push(item), ..rest };
            let then = Resolution { levels: below.push(fuller), ..r };
            assert(r.settle() == then.settle());
            assert(then.levels.last() == fuller);
            listing_is_worked_through(then, html, catalog, depth, fuel);
            assert(fuller.done + tail.entries =~= top.done + found.entries);
            assert(then.levels.drop_last() =~= below);
            assert(worked_through(then, tail.entries).levels =~= worked_through(
                r,
                found.entries,
            ).levels);
            assert(worked_through(then, tail.entries) == worked_through(r, found.entries));
        } else {
            let listing = catalog(first.id)->0;
            let inside = unfold_all(catalog, listing, join(top.dir, first.title), (depth - 1) as nat)->0;
            let asking = Resolution { levels: below.push(rest), awaited: Some(item), ..r };
            assert(r.settle() == asking);
            assert(asking.outcome() is None);
            assert(answer(asking, html, catalog) == ResolveSignal::Listing(listing));
            let opened = Resolution {
                levels: asking.levels.push(
                    Level {
                        owner: Some(item),
                        dir: item.destination(),
                        waiting: listing,
                        done: Seq::empty(),
                    },
                ),
                awaited: None,
                ..asking
            };
            assert(asking.advance(ResolveSignal::Listing(listing)) == opened.settle());
            assert(run_resolution(asking, html, catalog, fuel) == run_resolution(
                opened.settle(),
                html,
                catalog,
                (fuel - 1) as nat,
            ));
            listing_is_worked_through(opened, html, catalog, (depth - 1) as nat, (fuel - 1) as nat);
            let closed = worked_through(opened, inside.entries);
            assert(closed.levels.last().done =~= inside.entries);
            assert(closed.levels.drop_last() =~= asking.levels);
            let grown = Level { done: rest.done.push(item.holding(inside.entries)), ..rest };
            let then = Resolution { levels: below.push(grown), ..closed };
            assert(asking.levels.drop_last() =~= below);
            assert(closed.settle() == then.settle());
            assert(then.levels.last() == grown);
            listing_is_worked_through(
                then,
                html,
                catalog,
                depth,
                (fuel - 1 - inside.fetches) as nat,
            );
            assert(grown.done + tail.entries =~= top.done + found.entries);
            assert(then.levels.drop_last() =~= below);
            assert(worked_through(then, tail.entries).levels =~= worked_through(
                r,
                found.entries,
            ).levels);
            assert(worked_through(then, tail.entries) == worked_through(r, found.entries));
        }
    }
}

/// A resolution that is taken through a remote service ends with the tree
/// that the service holds below the root: every entry of every listing in
/// listing order, each with its local path, each container with its
/// children. This holds where the page yields a key, no listing fails and
/// the tree is no deeper than `depth`; it takes one request for the page
/// and one for each listing.
pub proof fn resolution_ends_with_the_tree(
    root: Seq<char>,
    folder: Seq<char>,
    html: Seq<char>,
    catalog: Catalog,
    depth: nat,
)
    requires
        regex_capture(KEY_PATTERN@, html, 1) is Some,
        catalog(root) is Some,
        unfold_all(catalog, catalog(root)->0, folder, depth) is Some,
    ensures
        ({
            let found = unfold_all(catalog, catalog(root)->0, folder, depth)->0;
            run_resolution(Resolution::start(root, folder), html, catalog, found.fetches + 2).outcome()
                == Some(Ok::<Seq<Entry>, ResolutionError>(found.entries))
        }),
{
    let found = unfold_all(catalog, catalog(root)->0, folder, depth)->0;
    let begun = Resolution::start(root, folder);
    let keyed = begun.with_key(regex_capture(KEY_PATTERN@, html, 1));
    assert(begun.advance(answer(begun, html, catalog)) == keyed);
    let listing = catalog(root)->0;
    assert(answer(keyed, html, catalog) == ResolveSignal::Listing(listing));
    let opened = Resolution {
        levels: keyed.levels.push(
            Level { owner: None, dir: folder, waiting: listing, done: Seq::empty() },
        ),
        awaited: None,
        ..keyed
    };
    assert(keyed.advance(ResolveSignal::Listing(listing)) == opened.settle());
    reveal_with_fuel(run_resolution, 3);
    assert(run_resolution(begun, html, catalog, found.fetches + 2) == run_resolution(
        opened.settle(),
        html,
        catalog,
        found.fetches,
    ));
    listing_is_worked_through(opened, html, catalog, depth, found.fetches);
    let closed = worked_through(opened, found.entries);
    assert(closed.levels.last().done =~= found.entries);
    assert(closed.levels.drop_last() =~= Seq::<Level>::empty());
    assert(closed.settle().outcome() == Some(
        Ok::<Seq<Entry>, ResolutionError>(found.entries),
    ));
}

} // verus!
