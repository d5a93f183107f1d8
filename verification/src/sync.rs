//! Fetching the files that the server announces.
use vstd::prelude::*;

use crate::path;
use crate::path::{target_path, FILES_DIR};

verus! {

/// A file that the server has for the device.
#[derive(Debug)]
pub struct RemoteFile {
    pub name: String,
    pub url: String,
    pub format: String,
}

/// How far a sync has come: with one file at a time, then with the whole.
#[derive(Clone, Copy, Debug, PartialEq, Eq, Structural)]
pub enum SyncStage {
    /// Passing over a file whose name leads out of the directory.
    Skipping,
    /// Finding out whether the file is there already.
    Checking,
    /// Marking the file that is there as new.
    Touching,
    /// Requesting the file.
    Fetching,
    /// Reading the file from the reply.
    Receiving,
    /// Writing the file to disk.
    Storing,
    /// All files are done with: loading the newest PDF.
    Rescanning,
    /// Reporting how many files the device has.
    Announcing,
    /// Nothing is left to do.
    Done,
}

/// What can come of a step of a sync.
#[derive(Clone, Copy, Debug, PartialEq, Eq, Structural)]
pub enum SyncEvent {
    /// The file was passed over.
    Skipped,
    /// Whether the file is there already.
    Exists(bool),
    /// The file was marked as new, as far as that went.
    Touched,
    /// The server replied, with this status code.
    Responded(u16),
    /// The request failed.
    RequestFailed,
    /// The reply was read.
    Received,
    /// Reading the reply failed.
    ReceiveFailed,
    /// The file was written.
    Stored,
    /// Writing the file failed.
    StoreFailed,
    /// The newest PDF was loaded, as far as that went.
    Rescanned,
    /// The report was made.
    Announced,
}

/// What a sync has to do next; a number is the place of a file in the list.
#[derive(Clone, Copy, Debug, PartialEq, Eq, Structural)]
pub enum SyncAction {
    /// Pass over a file whose name leads out of the directory; nothing on disk is looked at or
    /// changed.
    Skip(usize),
    Check(usize),
    Touch(usize),
    Fetch(usize),
    Receive(usize),
    Store(usize),
    Rescan,
    /// Report that the device has this many of the files.
    Announce(usize),
    Nothing,
}

/// A sync, by its content.
pub ghost struct SyncModel {
    /// The files in the list.
    pub files: Seq<RemoteFile>,
    /// The files that are done with.
    pub next: nat,
    /// Of these, the files that the device has.
    pub downloaded: nat,
    pub stage: SyncStage,
}

/// Whether a stage deals with a single file.
pub open spec fn is_file_stage(stage: SyncStage) -> bool {
    match stage {
        SyncStage::Rescanning | SyncStage::Announcing | SyncStage::Done => false,
        _ => true,
    }
}

/// Whether a stage looks at the disk, or prepares for writing to it, at the place of a file.
pub open spec fn is_disk_stage(stage: SyncStage) -> bool {
    is_file_stage(stage) && stage != SyncStage::Skipping
}

/// The stage at which a sync takes up the file at `i` of a list, or the whole after the last one.
pub open spec fn first_stage(files: Seq<RemoteFile>, i: int) -> SyncStage {
    if i >= files.len() {
        SyncStage::Rescanning
    } else if path::stays_inside(files[i].name@) {
        SyncStage::Checking
    } else {
        SyncStage::Skipping
    }
}

impl SyncModel {
    /// What holds of a sync at every time.
    pub open spec fn wf(self) -> bool {
        &&& self.downloaded <= self.next <= self.files.len()
        &&& is_file_stage(self.stage) <==> self.next < self.files.len()
        &&& self.next < self.files.len() ==> (is_disk_stage(self.stage) <==> path::stays_inside(
            self.files[self.next as int].name@,
        ))
    }

    /// Where the current file goes, at the stages that have to do with the disk.
    pub open spec fn target(self) -> Option<Seq<char>> {
        if is_disk_stage(self.stage) {
            Some(path::joined(FILES_DIR@, self.files[self.next as int].name@))
        } else {
            None
        }
    }

    /// The current file is done with; the device has it or not.
    pub open spec fn file_done(self, have: bool) -> SyncModel {
        SyncModel {
            files: self.files,
            next: self.next + 1,
            downloaded: if have {
                self.downloaded + 1
            } else {
                self.downloaded
            },
            stage: first_stage(self.files, self.next as int + 1),
        }
    }

    pub open spec fn at(self, stage: SyncStage) -> SyncModel {
        SyncModel { stage, ..self }
    }

    /// What the sync has to do next.
    pub open spec fn action(self) -> SyncAction {
        match self.stage {
            SyncStage::Skipping => SyncAction::Skip(self.next as usize),
            SyncStage::Checking => SyncAction::Check(self.next as usize),
            SyncStage::Touching => SyncAction::Touch(self.next as usize),
            SyncStage::Fetching => SyncAction::Fetch(self.next as usize),
            SyncStage::Receiving => SyncAction::Receive(self.next as usize),
            SyncStage::Storing => SyncAction::Store(self.next as usize),
            SyncStage::Rescanning => SyncAction::Rescan,
            SyncStage::Announcing => SyncAction::Announce(self.downloaded as usize),
            SyncStage::Done => SyncAction::Nothing,
        }
    }

    /// The sync after an event. One that does not fit the stage changes nothing.
    pub open spec fn after(self, event: SyncEvent) -> SyncModel {
        match (self.stage, event) {
            (SyncStage::Skipping, SyncEvent::Skipped) => self.file_done(false),
            (SyncStage::Checking, SyncEvent::Exists(true)) => self.at(SyncStage::Touching),
            (SyncStage::Checking, SyncEvent::Exists(false)) => self.at(SyncStage::Fetching),
            (SyncStage::Touching, SyncEvent::Touched) => self.file_done(true),
            (SyncStage::Fetching, SyncEvent::Responded(code)) => if is_success(code) {
                self.at(SyncStage::Receiving)
            } else {
                self.file_done(false)
            },
            (SyncStage::Fetching, SyncEvent::RequestFailed) => self.file_done(false),
            (SyncStage::Receiving, SyncEvent::Received) => self.at(SyncStage::Storing),
            (SyncStage::Receiving, SyncEvent::ReceiveFailed) => self.file_done(false),
            (SyncStage::Storing, SyncEvent::Stored) => self.file_done(true),
            (SyncStage::Storing, SyncEvent::StoreFailed) => self.file_done(false),
            (SyncStage::Rescanning, SyncEvent::Rescanned) => self.at(SyncStage::Announcing),
            (SyncStage::Announcing, SyncEvent::Announced) => self.at(SyncStage::Done),
            _ => self,
        }
    }

    /// The sync after a run of events.
    pub open spec fn after_all(self, events: Seq<SyncEvent>) -> SyncModel
        decreases events.len(),
    {
        if events.len() == 0 {
            self
        } else {
            self.after(events.first()).after_all(events.drop_first())
        }
    }
}

/// The status codes that mean success.
pub open spec fn is_success(code: u16) -> bool {
    200 <= code <= 299
}

/// The sync of a list of files at its start.
pub open spec fn sync_start(files: Seq<RemoteFile>) -> SyncModel {
    SyncModel { files, next: 0, downloaded: 0, stage: first_stage(files, 0) }
}

/// The fetching of a list of files, one after the other.
pub struct SyncSession {
    files: Vec<RemoteFile>,
    next: usize,
    downloaded: usize,
    stage: SyncStage,
}

impl View for SyncSession {
    type V = SyncModel;

    closed spec fn view(&self) -> SyncModel {
        SyncModel {
            files: self.files@,
            next: self.next as nat,
            downloaded: self.downloaded as nat,
            stage: self.stage,
        }
    }
}

fn stage_for(files: &Vec<RemoteFile>, i: usize) -> (r: SyncStage)
    ensures
        r == first_stage(files@, i as int),
{
    if i >= files.len() {
        SyncStage::Rescanning
    } else if target_path(files[i].name.as_str()).is_some() {
        SyncStage::Checking
    } else {
        SyncStage::Skipping
    }
}

/// Starts on the list of files in a message. There is nothing to do, not even to report, when the
/// list could not be read or is empty.
pub fn handle_ws_data(files: Option<Vec<RemoteFile>>) -> (r: Option<SyncSession>)
    ensures
        r is Some <==> files is Some && files->0@.len() > 0,
        r matches Some(session) ==> session@ == sync_start(files->0@),
{
    match files {
        Some(files) => if files.len() > 0 {
            let stage = stage_for(&files, 0);
            Some(SyncSession { files, next: 0, downloaded: 0, stage })
        } else {
            None
        },
        None => None,
    }
}

impl SyncSession {
    #[verifier::type_invariant]
    closed spec fn inv(self) -> bool {
        self@.wf()
    }

    /// What is to be done next.
    pub fn action(&self) -> (r: SyncAction)
        ensures
            r == self@.action(),
            self@.wf(),
    {
        proof {
            use_type_invariant(self);
        }
        match self.stage {
            SyncStage::Skipping => SyncAction::Skip(self.next),
            SyncStage::Checking => SyncAction::Check(self.next),
            SyncStage::Touching => SyncAction::Touch(self.next),
            SyncStage::Fetching => SyncAction::Fetch(self.next),
            SyncStage::Receiving => SyncAction::Receive(self.next),
            SyncStage::Storing => SyncAction::Store(self.next),
            SyncStage::Rescanning => SyncAction::Rescan,
            SyncStage::Announcing => SyncAction::Announce(self.downloaded),
            SyncStage::Done => SyncAction::Nothing,
        }
    }

    /// The file that is being dealt with.
    pub fn current(&self) -> (r: Option<&RemoteFile>)
        ensures
            r is Some <==> is_file_stage(self@.stage),
            r matches Some(file) ==> *file == self@.files[self@.next as int],
    {
        proof {
            use_type_invariant(self);
        }
        if self.next < self.files.len() {
            Some(&self.files[self.next])
        } else {
            None
        }
    }

    /// Where the file that is being dealt with goes, at the stages that have to do with the disk.
    pub fn target(&self) -> (r: Option<String>)
        ensures
            r is Some <==> self@.target() is Some,
            r matches Some(path) ==> self@.target() == Some(path@) && path::lies_inside(
                path@,
                FILES_DIR@,
            ),
    {
        proof {
            use_type_invariant(self);
        }
        match self.current() {
            Some(file) => {
                proof {
                    path::law_targets_lie_in_the_directory(file.name@);
                }
                target_path(file.name.as_str())
            },
            None => None,
        }
    }

    fn file_done(self, have: bool) -> (r: SyncSession)
        requires
            is_file_stage(self@.stage),
        ensures
            r@ == self@.file_done(have),
    {
        proof {
            use_type_invariant(&self);
        }
        assert(self.files.len() <= usize::MAX);
        let next: usize = self.next + 1;
        let downloaded: usize = if have {
            self.downloaded + 1
        } else {
            self.downloaded
        };
        let stage = stage_for(&self.files, next);
        SyncSession { files: self.files, next, downloaded, stage }
    }

    fn at(self, stage: SyncStage) -> (r: SyncSession)
        requires
            is_file_stage(stage) == is_file_stage(self@.stage),
            is_disk_stage(stage) == is_disk_stage(self@.stage),
        ensures
            r@ == self@.at(stage),
    {
        proof {
            use_type_invariant(&self);
        }
        SyncSession { files: self.files, next: self.next, downloaded: self.downloaded, stage }
    }

    /// Takes the sync on by what came of its last action.
    pub fn step(self, event: SyncEvent) -> (r: SyncSession)
        ensures
            r@ == self@.after(event),
    {
        match (self.stage, event) {
            (SyncStage::Skipping, SyncEvent::Skipped) => self.file_done(false),
            (SyncStage::Checking, SyncEvent::Exists(there)) => if there {
                self.at(SyncStage::Touching)
            } else {
                self.at(SyncStage::Fetching)
            },
            (SyncStage::Touching, SyncEvent::Touched) => self.file_done(true),
            (SyncStage::Fetching, SyncEvent::Responded(code)) => if 200 <= code && code <= 299 {
                self.at(SyncStage::Receiving)
            } else {
                self.file_done(false)
            },
            (SyncStage::Fetching, SyncEvent::RequestFailed) => self.file_done(false),
            (SyncStage::Receiving, SyncEvent::Received) => self.at(SyncStage::Storing),
            (SyncStage::Receiving, SyncEvent::ReceiveFailed) => self.file_done(false),
            (SyncStage::Storing, SyncEvent::Stored) => self.file_done(true),
            (SyncStage::Storing, SyncEvent::StoreFailed) => self.file_done(false),
            (SyncStage::Rescanning, SyncEvent::Rescanned) => self.at(SyncStage::Announcing),
            (SyncStage::Announcing, SyncEvent::Announced) => self.at(SyncStage::Done),
            _ => self,
        }
    }
}

/// How things go with one file.
pub ghost enum FileOutcome {
    /// Its name leads out of the directory.
    Skipped,
    /// It is there already.
    Present,
    /// The request fails.
    RequestFailed,
    /// The server replies with a code that does not mean success.
    Refused(u16),
    /// The reply, with this code of success, cannot be read.
    ReceiveFailed(u16),
    /// The file cannot be written.
    StoreFailed(u16),
    /// The file is fetched and written.
    Stored(u16),
}

impl FileOutcome {
    /// Whether a file called `name` can come to this.
    pub open spec fn possible(self, name: Seq<char>) -> bool {
        match self {
            FileOutcome::Skipped => !path::stays_inside(name),
            FileOutcome::Present | FileOutcome::RequestFailed => path::stays_inside(name),
            FileOutcome::Refused(code) => path::stays_inside(name) && !is_success(code),
            FileOutcome::ReceiveFailed(code) => path::stays_inside(name) && is_success(code),
            FileOutcome::StoreFailed(code) => path::stays_inside(name) && is_success(code),
            FileOutcome::Stored(code) => path::stays_inside(name) && is_success(code),
        }
    }

    /// Whether the device has the file in the end.
    pub open spec fn have(self) -> bool {
        self is Present || self is Stored
    }

    /// The events that make up the outcome.
    pub open spec fn events(self) -> Seq<SyncEvent> {
        match self {
            FileOutcome::Skipped => seq![SyncEvent::Skipped],
            FileOutcome::Present => seq![SyncEvent::Exists(true), SyncEvent::Touched],
            FileOutcome::RequestFailed => seq![SyncEvent::Exists(false), SyncEvent::RequestFailed],
            FileOutcome::Refused(code) => seq![
                SyncEvent::Exists(false),
                SyncEvent::Responded(code),
            ],
            FileOutcome::ReceiveFailed(code) => seq![
                SyncEvent::Exists(false),
                SyncEvent::Responded(code),
                SyncEvent::ReceiveFailed,
            ],
            FileOutcome::StoreFailed(code) => seq![
                SyncEvent::Exists(false),
                SyncEvent::Responded(code),
                SyncEvent::Received,
                SyncEvent::StoreFailed,
            ],
            FileOutcome::Stored(code) => seq![
                SyncEvent::Exists(false),
                SyncEvent::Responded(code),
                SyncEvent::Received,
                SyncEvent::Stored,
            ],
        }
    }
}

/// The events of several files, one file after the other.
pub open spec fn events_of(outcomes: Seq<FileOutcome>) -> Seq<SyncEvent>
    decreases outcomes.len(),
{
    if outcomes.len() == 0 {
        seq![]
    } else {
        events_of(outcomes.drop_last()) + outcomes.last().events()
    }
}

/// How many of the files the device has in the end.
pub open spec fn have_count(outcomes: Seq<FileOutcome>) -> nat {
    outcomes.filter(|o: FileOutcome| o.have()).len()
}

proof fn lemma_after_concat(m: SyncModel, a: Seq<SyncEvent>, b: Seq<SyncEvent>)
    ensures
        m.after_all(a + b) == m.after_all(a).after_all(b),
    decreases a.len(),
{
    if a.len() == 0 {
        assert(a + b =~= b);
    } else {
        assert((a + b).drop_first() =~= a.drop_first() + b);
        lemma_after_concat(m.after(a.first()), a.drop_first(), b);
    }
}

proof fn lemma_one_file(m: SyncModel, outcome: FileOutcome)
    requires
        m.next < m.files.len(),
        m.stage == first_stage(m.files, m.next as int),
        outcome.possible(m.files[m.next as int].name@),
    ensures
        m.after_all(outcome.events()) == m.file_done(outcome.have()),
{
    reveal_with_fuel(SyncModel::after_all, 6);
}

/// Whether each file of a list comes to its outcome.
pub open spec fn are_outcomes_of(outcomes: Seq<FileOutcome>, files: Seq<RemoteFile>) -> bool {
    &&& outcomes.len() == files.len()
    &&& forall|i: int|
        0 <= i < outcomes.len() ==> (#[trigger] outcomes[i]).possible(files[i].name@)
}

/// Every file of the list is tried once, in order, however it goes with the others; only one whose
/// name leads out of the directory is passed over; when all are done with, the newest PDF is
/// loaded, and the count is of the files that were there already or were fetched and written.
pub proof fn law_every_file_is_tried(
    files: Seq<RemoteFile>,
    outcomes: Seq<FileOutcome>,
    k: int,
)
    requires
        0 <= k <= outcomes.len(),
        are_outcomes_of(outcomes, files),
    ensures
        sync_start(files).after_all(events_of(outcomes.take(k))) == (SyncModel {
            files,
            next: k as nat,
            downloaded: have_count(outcomes.take(k)),
            stage: first_stage(files, k),
        }),
    decreases k,
{
    reveal(Seq::filter);
    if k > 0 {
        law_every_file_is_tried(files, outcomes, k - 1);
        let before = outcomes.take(k - 1);
        let now = outcomes.take(k);
        assert(now.drop_last() =~= before);
        assert(now.last() == outcomes[k - 1]);
        let start = sync_start(files);
        lemma_after_concat(start, events_of(before), outcomes[k - 1].events());
        lemma_one_file(start.after_all(events_of(before)), outcomes[k - 1]);
    }
}

/// Once all files are done with, the newest PDF is loaded first and then the count is reported:
/// the files that the device has, no more than the list holds.
pub proof fn law_sync_is_reported(files: Seq<RemoteFile>, outcomes: Seq<FileOutcome>)
    requires
        files.len() <= usize::MAX,
        are_outcomes_of(outcomes, files),
    ensures
        ({
            let all_done = sync_start(files).after_all(events_of(outcomes));
            let rescanned = all_done.after(SyncEvent::Rescanned);
            &&& all_done.action() == SyncAction::Rescan
            &&& rescanned.action() matches SyncAction::Announce(count)
            &&& count == have_count(outcomes)
            &&& have_count(outcomes) <= outcomes.len()
            &&& rescanned.after(SyncEvent::Announced).action() == SyncAction::Nothing
        }),
{
    assert(outcomes.take(outcomes.len() as int) =~= outcomes);
    law_every_file_is_tried(files, outcomes, outcomes.len() as int);
    outcomes.lemma_filter_len(|o: FileOutcome| o.have());
}

/// A file that is there already is marked as new and counted; it is not fetched.
pub proof fn law_present_file_is_not_fetched(m: SyncModel)
    requires
        m.stage == SyncStage::Checking,
    ensures
        m.after(SyncEvent::Exists(true)).action() == SyncAction::Touch(m.next as usize),
        m.after(SyncEvent::Exists(true)).after(SyncEvent::Touched) == m.file_done(true),
{
}

/// Whatever happens, no more files are counted than are done with, and no more are done with than
/// the list holds.
pub proof fn law_sync_stays_sound(m: SyncModel, event: SyncEvent)
    requires
        m.wf(),
    ensures
        m.after(event).wf(),
        m.after(event).files == m.files,
        m.after(event).next >= m.next,
        m.after(event).downloaded >= m.downloaded,
{
}

proof fn lemma_sync_stays_sound(m: SyncModel, events: Seq<SyncEvent>)
    requires
        m.wf(),
    ensures
        m.after_all(events).wf(),
        m.after_all(events).files == m.files,
    decreases events.len(),
{
    if events.len() > 0 {
        law_sync_stays_sound(m, events.first());
        lemma_sync_stays_sound(m.after(events.first()), events.drop_first());
    }
}

/// Whatever names the list holds and whatever happens, the files that a sync looks at, marks as new
/// or writes lie inside the directory of the device's files; at every other step it has no file to
/// look at or to write.
pub proof fn law_sync_stays_in_the_directory(files: Seq<RemoteFile>, events: Seq<SyncEvent>)
    ensures
        ({
            let m = sync_start(files).after_all(events);
            match m.action() {
                SyncAction::Check(_)
                | SyncAction::Touch(_)
                | SyncAction::Fetch(_)
                | SyncAction::Receive(_)
                | SyncAction::Store(_) => {
                    &&& m.target() matches Some(path)
                    &&& path::lies_inside(path, FILES_DIR@)
                    &&& path == path::joined(FILES_DIR@, files[m.next as int].name@)
                },
                _ => m.target() is None,
            }
        }),
{
    lemma_sync_stays_sound(sync_start(files), events);
    let m = sync_start(files).after_all(events);
    if is_disk_stage(m.stage) {
        path::law_targets_lie_in_the_directory(files[m.next as int].name@);
    }
}

/// The steps that a sync can still take.
pub open spec fn steps_left(m: SyncModel) -> int {
    4 * (m.files.len() - m.next) + match m.stage {
        SyncStage::Skipping => 0int,
        SyncStage::Checking => 3int,
        SyncStage::Touching => 0,
        SyncStage::Fetching => 2,
        SyncStage::Receiving => 1,
        SyncStage::Storing => 0,
        SyncStage::Rescanning => 2,
        SyncStage::Announcing => 1,
        SyncStage::Done => 0,
    }
}

/// A sync comes to an end: every event that changes it leaves fewer steps to take.
pub proof fn law_sync_ends(m: SyncModel, event: SyncEvent)
    requires
        m.wf(),
        m.after(event) != m,
    ensures
        0 <= steps_left(m.after(event)) < steps_left(m),
{
}

/// A run of events is its events one after the other.
pub proof fn law_events_come_one_by_one(m: SyncModel, events: Seq<SyncEvent>, event: SyncEvent)
    ensures
        m.after_all(Seq::empty()) == m,
        m.after_all(events.push(event)) == m.after_all(events).after(event),
{
    reveal_with_fuel(SyncModel::after_all, 2);
    assert(events.push(event) =~= events + seq![event]);
    assert(seq![event].drop_first() =~= Seq::<SyncEvent>::empty());
    lemma_after_concat(m, events, seq![event]);
}

/// A sync starts with nothing done and nothing counted, and by looking for the first file, unless
/// the name of that leads out of the directory.
pub proof fn law_sync_starts_by_looking(files: Seq<RemoteFile>)
    requires
        0 < files.len() <= usize::MAX,
    ensures
        sync_start(files).files == files,
        sync_start(files).next == 0,
        sync_start(files).downloaded == 0,
        path::stays_inside(files[0].name@) ==> sync_start(files).action() == SyncAction::Check(0),
        !path::stays_inside(files[0].name@) ==> sync_start(files).action() == SyncAction::Skip(0),
{
}

/// At every step of every sync, what is to be done next follows from what was to be done and from
/// what came of it:
/// - a file that is found is marked as new, and one that is not found is requested;
/// - a reply with a code from 200 to 299 is read, and what was read is written;
/// - a file that was marked as new or written is done with and counted, and one at which something
///   failed is done with and not counted;
/// - after a file that is done with comes the next one, by looking for it, unless its name leads
///   out of the directory;
/// - after the last one the newest PDF is loaded, then the count is reported, and that is all.
///
/// What does not fit changes nothing.
pub proof fn law_sync_goes_on(files: Seq<RemoteFile>, events: Seq<SyncEvent>, event: SyncEvent)
    requires
        0 < files.len() <= usize::MAX,
    ensures
        ({
            let m = sync_start(files).after_all(events);
            let n = sync_start(files).after_all(events.push(event));
            let same_file = n.next == m.next && n.downloaded == m.downloaded;
            let done = |have: nat|
                {
                    &&& n.next == m.next + 1
                    &&& n.downloaded == m.downloaded + have
                    &&& n.action() == if n.next == files.len() {
                        SyncAction::Rescan
                    } else if path::stays_inside(files[n.next as int].name@) {
                        SyncAction::Check(n.next as usize)
                    } else {
                        SyncAction::Skip(n.next as usize)
                    }
                };
            &&& m.files == files && n.files == files
            &&& m.downloaded <= m.next <= files.len()
            &&& match (m.action(), event) {
                (SyncAction::Skip(i), SyncEvent::Skipped) => i == m.next && done(0),
                (SyncAction::Check(i), SyncEvent::Exists(there)) => {
                    &&& i == m.next && same_file
                    &&& n.action() == if there {
                        SyncAction::Touch(i)
                    } else {
                        SyncAction::Fetch(i)
                    }
                },
                (SyncAction::Touch(i), SyncEvent::Touched) => i == m.next && done(1),
                (SyncAction::Fetch(i), SyncEvent::Responded(code)) => {
                    &&& i == m.next
                    &&& 200 <= code <= 299 ==> same_file && n.action() == SyncAction::Receive(i)
                    &&& code < 200 || code > 299 ==> done(0)
                },
                (SyncAction::Fetch(i), SyncEvent::RequestFailed) => i == m.next && done(0),
                (SyncAction::Receive(i), SyncEvent::Received) => {
                    i == m.next && same_file && n.action() == SyncAction::Store(i)
                },
                (SyncAction::Receive(i), SyncEvent::ReceiveFailed) => i == m.next && done(0),
                (SyncAction::Store(i), SyncEvent::Stored) => i == m.next && done(1),
                (SyncAction::Store(i), SyncEvent::StoreFailed) => i == m.next && done(0),
                (SyncAction::Rescan, SyncEvent::Rescanned) => {
                    &&& m.next == files.len() && same_file
                    &&& n.action() matches SyncAction::Announce(count) && count == m.downloaded
                },
                (SyncAction::Announce(count), SyncEvent::Announced) => {
                    count == m.downloaded && same_file && n.action() == SyncAction::Nothing
                },
                _ => same_file && n.action() == m.action(),
            }
        }),
{
    let start = sync_start(files);
    let m = start.after_all(events);
    lemma_sync_stays_sound(start, events);
    law_events_come_one_by_one(start, events, event);
}

/// Of all files that are requested, each was looked for just before and not found; of all that are
/// marked as new, each was looked for just before and found; and nothing is written but what was
/// read from a reply with a code of success just before.
pub proof fn law_files_are_requested_only_if_missing(files: Seq<RemoteFile>, events: Seq<SyncEvent>)
    requires
        0 < files.len() <= usize::MAX,
    ensures
        ({
            let start = sync_start(files);
            match start.after_all(events).action() {
                SyncAction::Fetch(i) => exists|k: int|
                    0 <= k < events.len() && #[trigger] events[k] == SyncEvent::Exists(false)
                        && start.after_all(events.take(k)).action() == SyncAction::Check(i),
                SyncAction::Touch(i) => exists|k: int|
                    0 <= k < events.len() && #[trigger] events[k] == SyncEvent::Exists(true)
                        && start.after_all(events.take(k)).action() == SyncAction::Check(i),
                SyncAction::Receive(i) => exists|k: int|
                    0 <= k < events.len() && (#[trigger] events[k] matches SyncEvent::Responded(code)
                        && 200 <= code <= 299) && start.after_all(events.take(k)).action()
                        == SyncAction::Fetch(i),
                SyncAction::Store(i) => exists|k: int|
                    0 <= k < events.len() && #[trigger] events[k] == SyncEvent::Received
                        && start.after_all(events.take(k)).action() == SyncAction::Receive(i),
                _ => true,
            }
        }),
    decreases events.len(),
{
    let start = sync_start(files);
    if events.len() > 0 {
        let before = events.drop_last();
        let last = events.len() - 1;
        law_sync_goes_on(files, before, events.last());
        assert(before.push(events.last()) =~= events);
        assert(events.take(last) =~= before);
        assert(events[last] == events.last());
        if start.after_all(events).action() == start.after_all(before).action() {
            law_files_are_requested_only_if_missing(files, before);
            assert forall|k: int| 0 <= k < before.len() implies #[trigger] before[k] == events[k]
                && before.take(k) == events.take(k) by {
                assert(before.take(k) =~= events.take(k));
            }
        }
    } else {
        reveal_with_fuel(SyncModel::after_all, 1);
    }
}

/// There is a sync if and only if there is a file in the list, and it takes up the first one by
/// looking for it, unless its name leads out of the directory.
pub proof fn law_session_starts_by_looking(
    files: Option<Vec<RemoteFile>>,
    session: Option<SyncSession>,
    action: SyncAction,
)
    requires
        call_ensures(handle_ws_data, (files,), session),
        session matches Some(s) ==> call_ensures(SyncSession::action, (&s,), action),
    ensures
        session is Some <==> files is Some && files->0@.len() > 0,
        session is Some && path::stays_inside(files->0@[0].name@) ==> action == SyncAction::Check(0),
        session is Some && !path::stays_inside(files->0@[0].name@) ==> action
            == SyncAction::Skip(0),
{
}

/// How the actions of a sync follow each other, told of the values that go in and come out.
pub proof fn law_session_goes_on(
    session: SyncSession,
    action: SyncAction,
    event: SyncEvent,
    next: SyncSession,
    next_action: SyncAction,
)
    requires
        call_ensures(SyncSession::action, (&session,), action),
        call_ensures(SyncSession::step, (session, event), next),
        call_ensures(SyncSession::action, (&next,), next_action),
    ensures
        match (action, event) {
            (SyncAction::Check(i), SyncEvent::Exists(true)) => next_action == SyncAction::Touch(i),
            (SyncAction::Check(i), SyncEvent::Exists(false)) => next_action == SyncAction::Fetch(i),
            (SyncAction::Fetch(i), SyncEvent::Responded(code)) if 200 <= code <= 299 => {
                next_action == SyncAction::Receive(i)
            },
            (SyncAction::Receive(i), SyncEvent::Received) => next_action == SyncAction::Store(i),
            (SyncAction::Announce(_), SyncEvent::Announced) => next_action == SyncAction::Nothing,
            (SyncAction::Rescan, SyncEvent::Rescanned) => next_action is Announce,
            (SyncAction::Skip(i), SyncEvent::Skipped)
            | (SyncAction::Touch(i), SyncEvent::Touched)
            | (SyncAction::Fetch(i), SyncEvent::Responded(_))
            | (SyncAction::Fetch(i), SyncEvent::RequestFailed)
            | (SyncAction::Receive(i), SyncEvent::ReceiveFailed)
            | (SyncAction::Store(i), SyncEvent::Stored)
            | (SyncAction::Store(i), SyncEvent::StoreFailed) => match next_action {
                SyncAction::Check(j) | SyncAction::Skip(j) => j == i + 1,
                SyncAction::Rescan => true,
                _ => false,
            },
            _ => next_action == action,
        },
{
}

/// A file is looked for, marked as new and written at its name taken from the directory, and at no
/// other place.
pub proof fn law_session_targets(session: SyncSession, action: SyncAction, target: Option<String>)
    requires
        call_ensures(SyncSession::action, (&session,), action),
        call_ensures(SyncSession::target, (&session,), target),
    ensures
        match action {
            SyncAction::Check(i)
            | SyncAction::Touch(i)
            | SyncAction::Fetch(i)
            | SyncAction::Receive(i)
            | SyncAction::Store(i) => {
                &&& i < session@.files.len()
                &&& target matches Some(path) && path@ == path::joined(
                    FILES_DIR@,
                    session@.files[i as int].name@,
                )
            },
            _ => target is None,
        },
{
}

/// The file that a sync deals with is the one that its action names, as it stands in the list.
pub proof fn law_session_file(session: SyncSession, action: SyncAction, file: Option<&RemoteFile>)
    requires
        call_ensures(SyncSession::action, (&session,), action),
        call_ensures(SyncSession::current, (&session,), file),
    ensures
        match action {
            SyncAction::Skip(i)
            | SyncAction::Check(i)
            | SyncAction::Touch(i)
            | SyncAction::Fetch(i)
            | SyncAction::Receive(i)
            | SyncAction::Store(i) => file matches Some(f) && *f == session@.files[i as int],
            _ => file is None,
        },
{
}

} // verus!
