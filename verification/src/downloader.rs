use vstd::prelude::*;

use crate::checksum::{check_content, md5_of, verdict, Integrity};
use crate::google_drive::{children_shown, each_placed, join_path, Entry, GoogleItem, GooglePage};

verus! {

/// How a run treats what it finds.
#[derive(Clone, Copy, Debug, PartialEq, Eq, Structural)]
pub struct Options {
    /// Transfer a leaf even where its file already exists.
    pub force: bool,
    /// Compare what was written against the declared checksum.
    pub verify_checksum: bool,
    /// Report also what needs no attention.
    pub verbose: bool,
    /// Write nothing; only collect what would be transferred.
    pub dry_run: bool,
}

/// One stop of the walk over a tree, as a model.
pub ghost enum Step {
    /// A directory that must exist before the walk goes on.
    Directory(Seq<char>),
    /// A leaf to settle.
    File(Entry),
}

/// One stop of the walk over a tree.
#[derive(Debug)]
pub enum Task {
    /// A directory that must exist before the walk goes on.
    Directory(String),
    /// A leaf to settle.
    File(GoogleItem),
}

impl View for Task {
    type V = Step;

    open spec fn view(&self) -> Step {
        match self {
            Task::Directory(path) => Step::Directory(path@),
            Task::File(item) => Step::File(item@),
        }
    }
}

/// The models of a run of tasks, in order.
pub open spec fn steps_of(tasks: Seq<Task>) -> Seq<Step> {
    tasks.map_values(|t: Task| t@)
}

/// The stops of a depth-first walk over one entry. A leaf is one stop. A
/// container is its own directory, unless the run is dry, and then the stops
/// of its children in listing order.
pub open spec fn walk(e: Entry, dry_run: bool) -> Seq<Step>
    decreases e, 0nat,
{
    if e.is_folder() {
        let here = if dry_run {
            Seq::<Step>::empty()
        } else {
            seq![Step::Directory(e.destination())]
        };
        match e.children {
            Some(c) => here + walk_all(c, dry_run),
            None => here,
        }
    } else {
        seq![Step::File(e)]
    }
}

/// The stops of a depth-first walk over a run of entries, one after the other.
pub open spec fn walk_all(entries: Seq<Entry>, dry_run: bool) -> Seq<Step>
    decreases entries, 1nat,
{
    if entries.len() == 0 {
        Seq::empty()
    } else {
        walk_all(entries.drop_last(), dry_run) + walk(entries.last(), dry_run)
    }
}

/// The stops of a walk that does not descend: the leaves of the top level,
/// in listing order, and nothing of any container.
pub open spec fn shallow(entries: Seq<Entry>) -> Seq<Step>
    decreases entries.len(),
{
    if entries.len() == 0 {
        Seq::empty()
    } else if entries.last().is_folder() {
        shallow(entries.drop_last())
    } else {
        shallow(entries.drop_last()).push(Step::File(entries.last()))
    }
}

/// The stops of a whole run over a collection.
pub open spec fn plan(page: Seq<Entry>, recursive: bool, dry_run: bool) -> Seq<Step> {
    if recursive {
        walk_all(page, dry_run)
    } else {
        shallow(page)
    }
}

/// How one leaf ended.
#[derive(Clone, Copy, Debug, PartialEq, Eq)]
pub enum Outcome {
    /// A dry run found that the leaf would be transferred.
    Planned,
    /// The file was there already and was left alone. Where checksums are
    /// verified, the verdict on the file that was found comes along.
    Skipped(Option<Integrity>),
    /// The byte stream failed; whatever was written stays.
    TransferFailed,
    /// The file was written and no verification was asked for.
    Transferred,
    /// The file was written and hashes to the declared checksum.
    Verified,
    /// The file was written and no checksum was declared.
    Unverifiable,
    /// The file was written and does not hash to the declared checksum, and
    /// no further attempt is made.
    TerminalMismatch,
}

/// Where one leaf stands on its way to an outcome.
#[derive(Clone, Copy, Debug, PartialEq, Eq)]
pub enum Phase {
    /// Nothing is known yet; the destination must be probed.
    Pending,
    /// The first transfer is under way.
    Transferring,
    /// The first transfer is complete and its content must be read back.
    Transferred,
    /// The content did not match: the file goes and a second transfer runs.
    RetriedOnce,
    /// The second transfer is complete and its content must be read back.
    Retransferred,
    /// The file existed and was skipped; its content must be read back.
    Inspecting,
    /// The leaf is done.
    Settled(Outcome),
}

/// What became of a directory that was asked for.
#[derive(Clone, Copy, Debug, PartialEq, Eq, Structural)]
pub enum Folder {
    /// It was there already.
    Existed,
    /// It was created.
    Created,
    /// It is not there and could not be created.
    Failed,
}

/// What the surroundings report back, as a model.
pub ghost enum Signal {
    /// A directory was seen to.
    Ready(Folder),
    /// Whether the probed destination exists.
    Exists(bool),
    /// A transfer ended, completely or not.
    Transferred(bool),
    /// The content of the file that was read back.
    Content(Seq<u8>),
}

/// What the surroundings report back.
#[derive(Debug)]
pub enum Event {
    /// A directory was seen to.
    Ready(Folder),
    /// Whether the probed destination exists.
    Exists(bool),
    /// A transfer ended, completely or not.
    Transferred(bool),
    /// The content of the file that was read back.
    Content(Vec<u8>),
}

impl View for Event {
    type V = Signal;

    open spec fn view(&self) -> Signal {
        match self {
            Event::Ready(made) => Signal::Ready(*made),
            Event::Exists(found) => Signal::Exists(*found),
            Event::Transferred(complete) => Signal::Transferred(*complete),
            Event::Content(bytes) => Signal::Content(bytes@),
        }
    }
}

/// Where a leaf goes once it is known whether its file exists. An existing
/// file is left alone unless the run forces; what is to be transferred is
/// only noted down by a dry run.
pub open spec fn after_probe(e: Entry, o: Options, found: bool) -> Phase {
    if !found || o.force {
        if o.dry_run {
            Phase::Settled(Outcome::Planned)
        } else {
            Phase::Transferring
        }
    } else if !o.verify_checksum {
        Phase::Settled(Outcome::Skipped(None))
    } else if e.checksum is Some {
        Phase::Inspecting
    } else {
        Phase::Settled(Outcome::Skipped(Some(Integrity::Unverifiable)))
    }
}

/// Where a leaf goes once its first transfer has ended.
pub open spec fn after_transfer(e: Entry, o: Options, complete: bool) -> Phase {
    if !complete {
        Phase::Settled(Outcome::TransferFailed)
    } else if !o.verify_checksum {
        Phase::Settled(Outcome::Transferred)
    } else if e.checksum is Some {
        Phase::Transferred
    } else {
        Phase::Settled(Outcome::Unverifiable)
    }
}

/// Where a leaf goes once the content of a transfer has been judged. Only a
/// mismatch after the first transfer of a forcing run leads to another
/// attempt; after the second there is none.
pub open spec fn after_check(o: Options, judged: Integrity, may_retry: bool) -> Phase {
    match judged {
        Integrity::Verified => Phase::Settled(Outcome::Verified),
        Integrity::Unverifiable => Phase::Settled(Outcome::Unverifiable),
        Integrity::Mismatch => if may_retry && o.force && !o.dry_run {
            Phase::RetriedOnce
        } else {
            Phase::Settled(Outcome::TerminalMismatch)
        },
    }
}

/// The phase that follows `phase` on `signal`. A signal that does not answer
/// what the phase waits for changes nothing.
pub open spec fn next(e: Entry, o: Options, phase: Phase, signal: Signal) -> Phase {
    match (phase, signal) {
        (Phase::Pending, Signal::Exists(found)) => after_probe(e, o, found),
        (Phase::Transferring, Signal::Transferred(complete)) => after_transfer(e, o, complete),
        (Phase::Transferred, Signal::Content(bytes)) => after_check(
            o,
            verdict(e.checksum, md5_of(bytes)),
            true,
        ),
        (Phase::RetriedOnce, Signal::Transferred(complete)) => if complete {
            Phase::Retransferred
        } else {
            Phase::Settled(Outcome::TransferFailed)
        },
        (Phase::Retransferred, Signal::Content(bytes)) => after_check(
            o,
            verdict(e.checksum, md5_of(bytes)),
            false,
        ),
        (Phase::Inspecting, Signal::Content(bytes)) => Phase::Settled(
            Outcome::Skipped(Some(verdict(e.checksum, md5_of(bytes)))),
        ),
        _ => phase,
    }
}

/// What a run has to tell.
#[derive(Clone, Copy, Debug, PartialEq, Eq, Structural)]
pub enum Notice {
    /// A directory was created.
    FolderCreated,
    /// A directory was there already.
    FolderExists,
    /// A transfer begins.
    Started,
    /// The file is there already and is left alone.
    AlreadyExists,
    /// The byte stream failed.
    TransferFailed,
    /// The content matches the declared checksum.
    ChecksumMatches,
    /// No checksum was declared.
    ChecksumUnknown,
    /// The content does not match the declared checksum.
    ChecksumMismatch,
    /// The content does not match the declared checksum and the file is
    /// transferred once more.
    Retrying,
}

/// What is told of a directory: its creation always, its presence to the verbose.
pub open spec fn folder_notices(o: Options, made: Folder) -> Seq<Notice> {
    match made {
        Folder::Created => seq![Notice::FolderCreated],
        Folder::Existed => if o.verbose {
            seq![Notice::FolderExists]
        } else {
            Seq::empty()
        },
        Folder::Failed => Seq::empty(),
    }
}

/// What is told of a file that is left alone: something to the verbose only.
pub open spec fn skip_notices(o: Options) -> Seq<Notice> {
    if o.verbose {
        seq![Notice::AlreadyExists]
    } else {
        Seq::empty()
    }
}

/// What is told once content was judged: that it matches to the verbose, anything else to all.
pub open spec fn verdict_notices(o: Options, judged: Integrity) -> Seq<Notice> {
    match judged {
        Integrity::Verified => if o.verbose {
            seq![Notice::ChecksumMatches]
        } else {
            Seq::empty()
        },
        Integrity::Unverifiable => seq![Notice::ChecksumUnknown],
        Integrity::Mismatch => seq![Notice::ChecksumMismatch],
    }
}

/// What is told when a leaf goes from one phase to another.
pub open spec fn notices(o: Options, before: Phase, after: Phase) -> Seq<Notice> {
    match (before, after) {
        (Phase::Pending, Phase::Transferring) => seq![Notice::Started],
        (Phase::Pending, Phase::Inspecting) => skip_notices(o),
        (Phase::Pending, Phase::Settled(Outcome::Skipped(None))) => skip_notices(o),
        (Phase::Pending, Phase::Settled(Outcome::Skipped(Some(judged)))) => skip_notices(o)
            + verdict_notices(o, judged),
        (Phase::Transferring, Phase::Settled(Outcome::TransferFailed))
        | (Phase::RetriedOnce, Phase::Settled(Outcome::TransferFailed)) => seq![
            Notice::TransferFailed,
        ],
        (Phase::Transferring, Phase::Settled(Outcome::Unverifiable)) => seq![
            Notice::ChecksumUnknown,
        ],
        (Phase::Transferred, Phase::RetriedOnce) => seq![Notice::Retrying],
        (Phase::Transferred, Phase::Settled(Outcome::Verified))
        | (Phase::Retransferred, Phase::Settled(Outcome::Verified)) => verdict_notices(
            o,
            Integrity::Verified,
        ),
        (Phase::Transferred, Phase::Settled(Outcome::Unverifiable))
        | (Phase::Retransferred, Phase::Settled(Outcome::Unverifiable)) => verdict_notices(
            o,
            Integrity::Unverifiable,
        ),
        (Phase::Transferred, Phase::Settled(Outcome::TerminalMismatch))
        | (Phase::Retransferred, Phase::Settled(Outcome::TerminalMismatch)) => verdict_notices(
            o,
            Integrity::Mismatch,
        ),
        (Phase::Inspecting, Phase::Settled(Outcome::Skipped(Some(judged)))) => verdict_notices(
            o,
            judged,
        ),
        _ => Seq::empty(),
    }
}

/// Says what is to be told of a directory.
pub fn announce_folder(options: Options, made: Folder) -> (told: Vec<Notice>)
    ensures
        told@ == folder_notices(options, made),
{
    let mut told: Vec<Notice> = Vec::new();
    match made {
        Folder::Created => {
            told.push(Notice::FolderCreated);
        },
        Folder::Existed => {
            if options.verbose {
                told.push(Notice::FolderExists);
            }
        },
        Folder::Failed => {},
    }
    proof {
        assert(told@ =~= folder_notices(options, made));
    }
    told
}

fn tell_verdict(options: Options, judged: Integrity, told: &mut Vec<Notice>)
    ensures
        final(told)@ == old(told)@ + verdict_notices(options, judged),
{
    match judged {
        Integrity::Verified => {
            if options.verbose {
                told.push(Notice::ChecksumMatches);
            }
        },
        Integrity::Unverifiable => {
            told.push(Notice::ChecksumUnknown);
        },
        Integrity::Mismatch => {
            told.push(Notice::ChecksumMismatch);
        },
    }
    proof {
        assert(told@ =~= old(told)@ + verdict_notices(options, judged));
    }
}

/// Says what is to be told when a leaf goes from one phase to another.
pub fn announce(options: Options, before: Phase, after: Phase) -> (told: Vec<Notice>)
    ensures
        told@ == notices(options, before, after),
{
    let mut told: Vec<Notice> = Vec::new();
    match (before, after) {
        (Phase::Pending, Phase::Transferring) => {
            told.push(Notice::Started);
        },
        (Phase::Pending, Phase::Inspecting) | (Phase::Pending, Phase::Settled(Outcome::Skipped(None))) => {
            if options.verbose {
                told.push(Notice::AlreadyExists);
            }
        },
        (Phase::Pending, Phase::Settled(Outcome::Skipped(Some(judged)))) => {
            if options.verbose {
                told.push(Notice::AlreadyExists);
            }
            tell_verdict(options, judged, &mut told);
        },
        (Phase::Transferring, Phase::Settled(Outcome::TransferFailed))
        | (Phase::RetriedOnce, Phase::Settled(Outcome::TransferFailed)) => {
            told.push(Notice::TransferFailed);
        },
        (Phase::Transferring, Phase::Settled(Outcome::Unverifiable)) => {
            told.push(Notice::ChecksumUnknown);
        },
        (Phase::Transferred, Phase::RetriedOnce) => {
            told.push(Notice::Retrying);
        },
        (Phase::Transferred, Phase::Settled(Outcome::Verified))
        | (Phase::Retransferred, Phase::Settled(Outcome::Verified)) => {
            tell_verdict(options, Integrity::Verified, &mut told);
        },
        (Phase::Transferred, Phase::Settled(Outcome::Unverifiable))
        | (Phase::Retransferred, Phase::Settled(Outcome::Unverifiable)) => {
            tell_verdict(options, Integrity::Unverifiable, &mut told);
        },
        (Phase::Transferred, Phase::Settled(Outcome::TerminalMismatch))
        | (Phase::Retransferred, Phase::Settled(Outcome::TerminalMismatch)) => {
            tell_verdict(options, Integrity::Mismatch, &mut told);
        },
        (Phase::Inspecting, Phase::Settled(Outcome::Skipped(Some(judged)))) => {
            tell_verdict(options, judged, &mut told);
        },
        _ => {},
    }
    proof {
        assert(told@ =~= notices(options, before, after));
    }
    told
}

/// How many leaves ended in which way.
#[derive(Clone, Copy, Debug, PartialEq, Eq, Structural)]
pub struct Summary {
    /// Noted by a dry run.
    pub planned: usize,
    /// Left alone because the file was there.
    pub skipped: usize,
    /// Given up because the byte stream failed.
    pub failed: usize,
    /// Written, and verified as far as that was asked for and possible.
    pub stored: usize,
    /// Written with content that does not match the declared checksum.
    pub mismatched: usize,
}

impl Summary {
    /// No leaf at all.
    pub open spec fn none() -> Summary {
        Summary { planned: 0, skipped: 0, failed: 0, stored: 0, mismatched: 0 }
    }

    /// How many leaves the summary counts in all.
    pub open spec fn sum(self) -> int {
        self.planned + self.skipped + self.failed + self.stored + self.mismatched
    }

    /// The summary with one more leaf that ended as `outcome`.
    pub open spec fn and(self, outcome: Outcome) -> Summary {
        match outcome {
            Outcome::Planned => Summary { planned: (self.planned + 1) as usize, ..self },
            Outcome::Skipped(_) => Summary { skipped: (self.skipped + 1) as usize, ..self },
            Outcome::TransferFailed => Summary { failed: (self.failed + 1) as usize, ..self },
            Outcome::TerminalMismatch => Summary {
                mismatched: (self.mismatched + 1) as usize,
                ..self
            },
            _ => Summary { stored: (self.stored + 1) as usize, ..self },
        }
    }
}

/// The summary of some outcomes.
pub open spec fn summed(outcomes: Seq<Outcome>) -> Summary
    decreases outcomes.len(),
{
    if outcomes.len() == 0 {
        Summary::none()
    } else {
        summed(outcomes.drop_last()).and(outcomes.last())
    }
}

/// Counts how many leaves ended in which way.
pub fn summarize(outcomes: &Vec<Outcome>) -> (summary: Summary)
    ensures
        summary == summed(outcomes@),
        summary.sum() == outcomes@.len(),
{
    let mut summary = Summary { planned: 0, skipped: 0, failed: 0, stored: 0, mismatched: 0 };
    let mut i: usize = 0;
    proof {
        assert(outcomes@.take(0) =~= Seq::<Outcome>::empty());
    }
    while i < outcomes.len()
        invariant
            i <= outcomes.len(),
            summary == summed(outcomes@.take(i as int)),
            summary.sum() == i,
        decreases outcomes.len() - i,
    {
        proof {
            assert(outcomes@.take(i + 1).drop_last() =~= outcomes@.take(i as int));
            assert(outcomes@.take(i + 1).last() == outcomes@[i as int]);
        }
        match outcomes[i] {
            Outcome::Planned => {
                summary.planned = summary.planned + 1;
            },
            Outcome::Skipped(_) => {
                summary.skipped = summary.skipped + 1;
            },
            Outcome::TransferFailed => {
                summary.failed = summary.failed + 1;
            },
            Outcome::TerminalMismatch => {
                summary.mismatched = summary.mismatched + 1;
            },
            _ => {
                summary.stored = summary.stored + 1;
            },
        }
        i += 1;
    }
    proof {
        assert(outcomes@.take(i as int) =~= outcomes@);
    }
    summary
}

/// What an entry can do towards its own download.
pub trait Download: View<V = Entry> {
    /// Appends the stops of a depth-first walk over this entry.
    fn download_content(&self, no_download: bool, steps: &mut Vec<Task>)
        requires
            self@.placed(),
        ensures
            steps_of(final(steps)@) == steps_of(old(steps)@) + walk(self@, no_download),
    ;

    /// Takes a leaf one phase further on what the surroundings report.
    fn download_file(&self, options: Options, phase: Phase, event: &Event) -> (then: Phase)
        ensures
            then == next(self@, options, phase, event@),
    ;

    /// Hashes what was read back and judges it against the declared checksum.
    fn check_hash(&self, content: &[u8]) -> (judged: Integrity)
        ensures
            judged == verdict(self@.checksum, md5_of(content@)),
    ;

    /// The directory that must exist for this entry: a container's own
    /// directory, a leaf's parent.
    fn create_path(&self) -> (dir: String)
        requires
            self@.path is Some,
        ensures
            dir@ == (if self@.is_folder() {
                self@.destination()
            } else {
                self@.path->0
            }),
    ;
}

/// Decides what follows a judged transfer.
pub fn conclude(options: Options, judged: Integrity, may_retry: bool) -> (then: Phase)
    ensures
        then == after_check(options, judged, may_retry),
{
    match judged {
        Integrity::Verified => Phase::Settled(Outcome::Verified),
        Integrity::Unverifiable => Phase::Settled(Outcome::Unverifiable),
        Integrity::Mismatch => {
            if may_retry && options.force && !options.dry_run {
                Phase::RetriedOnce
            } else {
                Phase::Settled(Outcome::TerminalMismatch)
            }
        },
    }
}

impl Download for GoogleItem {
    fn download_content(&self, no_download: bool, steps: &mut Vec<Task>)
        decreases self,
    {
        if self.is_folder() {
            if !no_download {
                let dir = self.create_path();
                steps.push(Task::Directory(dir));
            }
            let ghost here = steps_of(steps@);
            proof {
                assert(self@.path is Some);
                assert(here =~= steps_of(old(steps)@) + (if no_download {
                    Seq::<Step>::empty()
                } else {
                    seq![Step::Directory(self@.destination())]
                }));
            }
            match &self.children {
                Some(children) => {
                    let ghost below = self@.children->0;
                    let mut i: usize = 0;
                    proof {
                        children_shown(*self);
                        assert(below.take(0) =~= Seq::<Entry>::empty());
                        assert(steps_of(steps@) =~= here + walk_all(below.take(0), no_download));
                    }
                    while i < children.len()
                        invariant
                            i <= children.len(),
                            self.children == Some(*children),
                            below == self@.children->0,
                            below.len() == children@.len(),
                            self@.placed(),
                            self@.is_folder(),
                            steps_of(steps@) == here + walk_all(below.take(i as int), no_download),
                        decreases children.len() - i,
                    {
                        proof {
                            assert(decreases_to!(self => self.children->0));
                            assert(decreases_to!(*children => children[i as int]));
                            children_shown(*self);
                            assert(below[i as int] == children@[i as int]@);
                            assert(below[i as int].placed());
                            assert(below.take(i + 1).drop_last() =~= below.take(i as int));
                            assert(below.take(i + 1).last() == below[i as int]);
                        }
                        children[i].download_content(no_download, steps);
                        i += 1;
                        proof {
                            assert(steps_of(steps@) =~= here + walk_all(
                                below.take(i as int),
                                no_download,
                            ));
                        }
                    }
                    proof {
                        assert(below.take(i as int) =~= below);
                        assert(steps_of(steps@) =~= steps_of(old(steps)@) + walk(
                            self@,
                            no_download,
                        ));
                    }
                },
                None => {},
            }
        } else {
            let item = self.duplicate();
            steps.push(Task::File(item));
            proof {
                assert(steps_of(steps@) =~= steps_of(old(steps)@) + walk(self@, no_download));
            }
        }
    }

    fn download_file(&self, options: Options, phase: Phase, event: &Event) -> (then: Phase) {
        proof {
            children_shown(*self);
        }
        match (phase, event) {
            (Phase::Pending, Event::Exists(found)) => {
                if !*found || options.force {
                    if options.dry_run {
                        Phase::Settled(Outcome::Planned)
                    } else {
                        Phase::Transferring
                    }
                } else if !options.verify_checksum {
                    Phase::Settled(Outcome::Skipped(None))
                } else if self.md5Checksum.is_some() {
                    Phase::Inspecting
                } else {
                    Phase::Settled(Outcome::Skipped(Some(Integrity::Unverifiable)))
                }
            },
            (Phase::Transferring, Event::Transferred(complete)) => {
                if !*complete {
                    Phase::Settled(Outcome::TransferFailed)
                } else if !options.verify_checksum {
                    Phase::Settled(Outcome::Transferred)
                } else if self.md5Checksum.is_some() {
                    Phase::Transferred
                } else {
                    Phase::Settled(Outcome::Unverifiable)
                }
            },
            (Phase::Transferred, Event::Content(bytes)) => {
                let judged = self.check_hash(bytes.as_slice());
                conclude(options, judged, true)
            },
            (Phase::RetriedOnce, Event::Transferred(complete)) => {
                if *complete {
                    Phase::Retransferred
                } else {
                    Phase::Settled(Outcome::TransferFailed)
                }
            },
            (Phase::Retransferred, Event::Content(bytes)) => {
                let judged = self.check_hash(bytes.as_slice());
                conclude(options, judged, false)
            },
            (Phase::Inspecting, Event::Content(bytes)) => {
                let judged = self.check_hash(bytes.as_slice());
                Phase::Settled(Outcome::Skipped(Some(judged)))
            },
            _ => phase,
        }
    }

    fn check_hash(&self, content: &[u8]) -> (judged: Integrity) {
        proof {
            children_shown(*self);
        }
        check_content(&self.md5Checksum, content)
    }

    fn create_path(&self) -> (dir: String) {
        proof {
            children_shown(*self);
        }
        match &self.path {
            Some(path) => {
                if self.is_folder() {
                    join_path(path.as_str(), self.title.as_str())
                } else {
                    path.clone()
                }
            },
            None => String::new(),
        }
    }
}

/// What the walk asks of its surroundings, as a model.
pub ghost enum Demand {
    /// Make sure the directory exists, with all above it.
    CreateDir { path: Seq<char> },
    /// Tell whether the destination exists.
    Probe { dest: Seq<char> },
    /// Make sure `dir` exists, then stream the content of `id` into a new
    /// file at `dest`, replacing what is there.
    Transfer { id: Seq<char>, dir: Seq<char>, dest: Seq<char> },
    /// Delete the file at `dest`, then transfer as before.
    Retry { id: Seq<char>, dir: Seq<char>, dest: Seq<char> },
    /// Read the file at `dest` back.
    ReadBack { dest: Seq<char> },
    /// Nothing is left to do.
    Finished,
}

/// What the walk asks of its surroundings.
#[derive(Debug)]
pub enum Request {
    /// Make sure the directory exists, with all above it.
    CreateDir { path: String },
    /// Tell whether the destination exists.
    Probe { dest: String },
    /// Make sure `dir` exists, then stream the content of `id` into a new
    /// file at `dest`, replacing what is there.
    Transfer { id: String, dir: String, dest: String },
    /// Delete the file at `dest`, then transfer as before.
    Retry { id: String, dir: String, dest: String },
    /// Read the file at `dest` back.
    ReadBack { dest: String },
    /// Nothing is left to do.
    Finished,
}

impl View for Request {
    type V = Demand;

    open spec fn view(&self) -> Demand {
        match self {
            Request::CreateDir { path } => Demand::CreateDir { path: path@ },
            Request::Probe { dest } => Demand::Probe { dest: dest@ },
            Request::Transfer { id, dir, dest } => Demand::Transfer {
                id: id@,
                dir: dir@,
                dest: dest@,
            },
            Request::Retry { id, dir, dest } => Demand::Retry { id: id@, dir: dir@, dest: dest@ },
            Request::ReadBack { dest } => Demand::ReadBack { dest: dest@ },
            Request::Finished => Demand::Finished,
        }
    }
}

/// What a leaf in `phase` asks for.
pub open spec fn demand_of(e: Entry, phase: Phase) -> Demand {
    match phase {
        Phase::Pending => Demand::Probe { dest: e.destination() },
        Phase::Transferring => Demand::Transfer {
            id: e.id,
            dir: e.path->0,
            dest: e.destination(),
        },
        Phase::RetriedOnce => Demand::Retry { id: e.id, dir: e.path->0, dest: e.destination() },
        Phase::Transferred | Phase::Retransferred | Phase::Inspecting => Demand::ReadBack {
            dest: e.destination(),
        },
        Phase::Settled(_) => Demand::Finished,
    }
}

/// The state of a walk, as a model.
pub ghost struct Course {
    pub options: Options,
    /// The stops of the walk, in order.
    pub steps: Seq<Step>,
    /// The stop the walk is at.
    pub cursor: int,
    /// How far the leaf at the cursor has come.
    pub phase: Phase,
    /// How the leaves before the cursor ended, in order.
    pub outcomes: Seq<Outcome>,
    /// The leaves a dry run found to be transferred, in order.
    pub planned: Seq<Entry>,
}

impl Course {
    /// A walk over `steps` that has not begun.
    pub open spec fn start(options: Options, steps: Seq<Step>) -> Course {
        Course {
            options,
            steps,
            cursor: 0,
            phase: Phase::Pending,
            outcomes: Seq::empty(),
            planned: Seq::empty(),
        }
    }

    /// Every leaf among the stops knows its directory.
    pub open spec fn files_placed(steps: Seq<Step>) -> bool {
        forall|i: int|
            0 <= i < steps.len() ==> (#[trigger] steps[i] matches Step::File(e) ==> e.path is Some)
    }

    /// The cursor lies within the stops, the leaf at the cursor has not
    /// settled, and every leaf knows its directory.
    pub open spec fn wf(self) -> bool {
        &&& 0 <= self.cursor <= self.steps.len()
        &&& !(self.phase is Settled)
        &&& Self::files_placed(self.steps)
    }

    /// Whether the walk has passed its last stop.
    pub open spec fn finished(self) -> bool {
        self.cursor >= self.steps.len()
    }

    /// What the walk waits for.
    pub open spec fn demand(self) -> Demand {
        if self.finished() {
            Demand::Finished
        } else {
            match self.steps[self.cursor] {
                Step::Directory(path) => Demand::CreateDir { path },
                Step::File(e) => demand_of(e, self.phase),
            }
        }
    }

    /// What is to be told when `signal` comes in.
    pub open spec fn told(self, signal: Signal) -> Seq<Notice> {
        if self.finished() {
            Seq::empty()
        } else {
            match self.steps[self.cursor] {
                Step::Directory(_) => match signal {
                    Signal::Ready(made) => folder_notices(self.options, made),
                    _ => Seq::empty(),
                },
                Step::File(e) => notices(
                    self.options,
                    self.phase,
                    next(e, self.options, self.phase, signal),
                ),
            }
        }
    }

    /// The walk after `signal`. A directory is passed once it is reported
    /// ready. A leaf moves through its phases; when it settles, its outcome
    /// is noted, a planned leaf is collected, and the walk moves on.
    pub open spec fn advance(self, signal: Signal) -> Course {
        if self.finished() {
            self
        } else {
            match self.steps[self.cursor] {
                Step::Directory(_) => if signal is Ready {
                    Course { cursor: self.cursor + 1, phase: Phase::Pending, ..self }
                } else {
                    self
                },
                Step::File(e) => match next(e, self.options, self.phase, signal) {
                    Phase::Settled(outcome) => Course {
                        cursor: self.cursor + 1,
                        phase: Phase::Pending,
                        outcomes: self.outcomes.push(outcome),
                        planned: if outcome is Planned {
                            self.planned.push(e)
                        } else {
                            self.planned
                        },
                        ..self
                    },
                    phase => Course { phase, ..self },
                },
            }
        }
    }
}

/// A walk over a resolved collection: it says what it needs next, takes what
/// the surroundings report, and keeps the outcomes.
pub struct Walk {
    options: Options,
    tasks: Vec<Task>,
    cursor: usize,
    phase: Phase,
    outcomes: Vec<Outcome>,
    planned: GooglePage,
}

impl View for Walk {
    type V = Course;

    closed spec fn view(&self) -> Course {
        Course {
            options: self.options,
            steps: steps_of(self.tasks@),
            cursor: self.cursor as int,
            phase: self.phase,
            outcomes: self.outcomes@,
            planned: self.planned@,
        }
    }
}

impl Walk {
    /// Whether nothing is left to do.
    pub fn is_finished(&self) -> (done: bool)
        ensures
            done == self@.finished(),
    {
        self.cursor >= self.tasks.len()
    }

    /// How the leaves settled so far ended, in the order of the walk.
    pub fn outcomes(&self) -> (list: &Vec<Outcome>)
        ensures
            list@ == self@.outcomes,
    {
        &self.outcomes
    }

    /// The leaves a dry run found to be transferred, in the order of the walk.
    pub fn planned(&self) -> (page: &GooglePage)
        ensures
            page@ == self@.planned,
    {
        &self.planned
    }

    /// What the walk needs next from its surroundings.
    pub fn request(&self) -> (wanted: Request)
        requires
            self@.wf(),
        ensures
            wanted@ == self@.demand(),
    {
        if self.cursor >= self.tasks.len() {
            return Request::Finished;
        }
        match &self.tasks[self.cursor] {
            Task::Directory(path) => {
                proof {
                    assert(steps_of(self.tasks@)[self.cursor as int] == Step::Directory(path@));
                }
                Request::CreateDir { path: path.clone() }
            },
            Task::File(item) => {
                proof {
                    children_shown(*item);
                    assert(steps_of(self.tasks@)[self.cursor as int] == Step::File(item@));
                }
                match self.phase {
                    Phase::Settled(_) => Request::Finished,
                    Phase::Pending => Request::Probe { dest: destination_of(item) },
                    Phase::Transferring => Request::Transfer {
                        id: item.id.clone(),
                        dir: parent_of(item),
                        dest: destination_of(item),
                    },
                    Phase::RetriedOnce => Request::Retry {
                        id: item.id.clone(),
                        dir: parent_of(item),
                        dest: destination_of(item),
                    },
                    _ => Request::ReadBack { dest: destination_of(item) },
                }
            },
        }
    }

    /// Counts how the leaves settled so far ended.
    pub fn summary(&self) -> (summary: Summary)
        ensures
            summary == summed(self@.outcomes),
    {
        summarize(&self.outcomes)
    }

    /// Takes in what the surroundings report and moves the walk on. Returns
    /// what is to be told of it.
    pub fn advance(&mut self, event: Event) -> (told: Vec<Notice>)
        requires
            old(self)@.wf(),
        ensures
            final(self)@ == old(self)@.advance(event@),
            final(self)@.wf(),
            told@ == old(self)@.told(event@),
    {
        if self.cursor >= self.tasks.len() {
            return Vec::new();
        }
        match &self.tasks[self.cursor] {
            Task::Directory(_) => {
                if let Event::Ready(made) = event {
                    self.cursor = self.cursor + 1;
                    self.phase = Phase::Pending;
                    announce_folder(self.options, made)
                } else {
                    Vec::new()
                }
            },
            Task::File(item) => {
                let then = item.download_file(self.options, self.phase, &event);
                let told = announce(self.options, self.phase, then);
                match then {
                    Phase::Settled(outcome) => {
                        if let Outcome::Planned = outcome {
                            let copy = item.duplicate();
                            let ghost before = self.planned@;
                            self.planned.items.push(copy);
                            proof {
                                assert(self.planned@ =~= before.push(item@));
                            }
                        }
                        self.outcomes.push(outcome);
                        self.cursor = self.cursor + 1;
                        self.phase = Phase::Pending;
                    },
                    _ => {
                        self.phase = then;
                    },
                }
                told
            },
        }
    }
}

/// The directory a placed leaf is written into.
pub fn parent_of(item: &GoogleItem) -> (dir: String)
    requires
        item@.path is Some,
    ensures
        dir@ == item@.path->0,
{
    proof {
        children_shown(*item);
    }
    match &item.path {
        Some(path) => path.clone(),
        None => String::new(),
    }
}

/// Where a placed leaf is written: its title below its directory.
pub fn destination_of(item: &GoogleItem) -> (dest: String)
    requires
        item@.path is Some,
    ensures
        dest@ == item@.destination(),
{
    proof {
        children_shown(*item);
    }
    match &item.path {
        Some(path) => join_path(path.as_str(), item.title.as_str()),
        None => String::new(),
    }
}

/// The leaves of a placed tree know their directories.
pub proof fn walk_keeps_places(e: Entry, dry_run: bool)
    requires
        e.placed(),
    ensures
        Course::files_placed(walk(e, dry_run)),
    decreases e, 0nat,
{
    if e.is_folder() {
        if e.children is Some {
            walk_all_keeps_places(e.children->0, dry_run);
        }
    }
}

/// The leaves of placed trees know their directories.
pub proof fn walk_all_keeps_places(entries: Seq<Entry>, dry_run: bool)
    requires
        forall|i: int| 0 <= i < entries.len() ==> (#[trigger] entries[i]).placed(),
    ensures
        Course::files_placed(walk_all(entries, dry_run)),
    decreases entries, 1nat,
{
    if entries.len() > 0 {
        walk_all_keeps_places(entries.drop_last(), dry_run);
        walk_keeps_places(entries.last(), dry_run);
    }
}

/// The leaves of the top level know their directories.
pub proof fn shallow_keeps_places(entries: Seq<Entry>)
    requires
        forall|i: int| 0 <= i < entries.len() ==> (#[trigger] entries[i]).placed(),
    ensures
        Course::files_placed(shallow(entries)),
    decreases entries.len(),
{
    if entries.len() > 0 {
        shallow_keeps_places(entries.drop_last());
    }
}

/// Lays out the walk over a resolved collection: depth-first where
/// `recursive` is set, else over the leaves of the top level alone.
pub fn download_folder(
    google_page: &GooglePage,
    force: bool,
    recursive: bool,
    md5: bool,
    verbose: bool,
    no_download: bool,
) -> (walk: Walk)
    requires
        each_placed(google_page@),
    ensures
        walk@ == Course::start(
            (Options { force, verify_checksum: md5, verbose, dry_run: no_download }),
            plan(google_page@, recursive, no_download),
        ),
        walk@.wf(),
{
    let ghost page = google_page@;
    let mut tasks: Vec<Task> = Vec::new();
    let mut i: usize = 0;
    proof {
        assert(page.take(0) =~= Seq::<Entry>::empty());
        assert(steps_of(tasks@) =~= plan(page.take(0), recursive, no_download));
    }
    while i < google_page.items.len()
        invariant
            i <= google_page.items.len(),
            page == google_page@,
            page.len() == google_page.items@.len(),
            forall|k: int| 0 <= k < page.len() ==> (#[trigger] page[k]).placed(),
            steps_of(tasks@) == plan(page.take(i as int), recursive, no_download),
        decreases google_page.items.len() - i,
    {
        let item = &google_page.items[i];
        proof {
            assert(page[i as int] == item@);
            assert(page.take(i + 1).drop_last() =~= page.take(i as int));
            assert(page.take(i + 1).last() == page[i as int]);
        }
        if recursive {
            item.download_content(no_download, &mut tasks);
        } else if !item.is_folder() {
            let copy = item.duplicate();
            let ghost before = steps_of(tasks@);
            tasks.push(Task::File(copy));
            proof {
                assert(steps_of(tasks@) =~= before.push(Step::File(item@)));
            }
        }
        i += 1;
    }
    proof {
        assert(page.take(i as int) =~= page);
        if recursive {
            walk_all_keeps_places(page, no_download);
        } else {
            shallow_keeps_places(page);
        }
    }
    let walk = Walk {
        options: Options { force, verify_checksum: md5, verbose, dry_run: no_download },
        tasks,
        cursor: 0,
        phase: Phase::Pending,
        outcomes: Vec::new(),
        planned: GooglePage { items: Vec::new() },
    };
    proof {
        assert(walk@.outcomes =~= Seq::empty());
        assert(walk@.planned =~= Seq::empty());
    }
    walk
}

} // verus!
