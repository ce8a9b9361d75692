//! The transfer pass: every file of a folder tree is copied to the local
//! destination, and deleted from the device afterwards where that is asked
//! for.
//!
//! The folders below a folder are drained before the folder's own files are
//! touched. A file is deleted only in answer to the event that reports its
//! copy as written, so a failed copy never costs the source.

use crate::path::{destination, destination_path, join, join_path};
use crate::protocol::{Action, ActionView, Event, EventView, TransferError};
use crate::stack::stacked;
use vstd::prelude::*;

verus! {

/// A unit of work that a transfer has still before it.
pub enum Task {
    /// Walk the folder `path`: its sub-folders first, then its files.
    Enter { path: String },
    /// List the files of the folder `path`, whose sub-folders are done.
    List { path: String },
    /// Copy the file `file` of the folder `folder`.
    Copy { folder: String, file: String },
}

/// A [`Task`] as a mathematical value.
pub enum TaskView {
    Enter { path: Seq<char> },
    List { path: Seq<char> },
    Copy { folder: Seq<char>, file: Seq<char> },
}

impl View for Task {
    type V = TaskView;

    open spec fn view(&self) -> TaskView {
        match *self {
            Task::Enter { path } => TaskView::Enter { path: path@ },
            Task::List { path } => TaskView::List { path: path@ },
            Task::Copy { folder, file } => TaskView::Copy { folder: folder@, file: file@ },
        }
    }
}

impl DeepView for Task {
    type V = TaskView;

    open spec fn deep_view(&self) -> TaskView {
        self@
    }
}

/// The answer that a transfer waits for.
pub enum Waiting {
    /// Nothing was asked yet.
    Start,
    /// The folders of `path` were asked for.
    Folders { path: String },
    /// The files of `path` were asked for.
    Files { path: String },
    /// The copy of `file` in `folder` was asked for.
    Download { folder: String, file: String },
    /// The deletion of `file` in `folder`, which is copied, was asked for.
    Delete { folder: String, file: String },
    /// The observer was told of a finished file.
    Report,
    /// The transfer is over.
    Closed { result: Result<(), TransferError> },
}

/// A [`Waiting`] as a mathematical value.
pub enum WaitingView {
    Start,
    Folders { path: Seq<char> },
    Files { path: Seq<char> },
    Download { folder: Seq<char>, file: Seq<char> },
    Delete { folder: Seq<char>, file: Seq<char> },
    Report,
    Closed { result: Result<(), TransferError> },
}

impl View for Waiting {
    type V = WaitingView;

    open spec fn view(&self) -> WaitingView {
        match *self {
            Waiting::Start => WaitingView::Start,
            Waiting::Folders { path } => WaitingView::Folders { path: path@ },
            Waiting::Files { path } => WaitingView::Files { path: path@ },
            Waiting::Download { folder, file } => WaitingView::Download {
                folder: folder@,
                file: file@,
            },
            Waiting::Delete { folder, file } => WaitingView::Delete {
                folder: folder@,
                file: file@,
            },
            Waiting::Report => WaitingView::Report,
            Waiting::Closed { result } => WaitingView::Closed { result },
        }
    }
}

/// One `Enter` task for each of the folders `names` of the folder `path`.
pub open spec fn enters(path: Seq<char>, names: Seq<Seq<char>>) -> Seq<TaskView> {
    Seq::new(names.len(), |i: int| TaskView::Enter { path: join(path, names[i]) })
}

/// One `Copy` task for each of the files `names` of the folder `folder`.
pub open spec fn copies(folder: Seq<char>, names: Seq<Seq<char>>) -> Seq<TaskView> {
    Seq::new(names.len(), |i: int| TaskView::Copy { folder, file: names[i] })
}

/// What is fixed for the whole of a transfer.
pub struct Settings {
    /// The local directory below which the files are written.
    pub destination_root: Seq<char>,
    /// Whether a file is deleted from the device once it is copied.
    pub delete_after_copy: bool,
    /// The number of files announced to the observer. Without one, nothing
    /// is reported.
    pub total: Option<u64>,
}

/// The state of a transfer as a mathematical value, with its transition
/// function.
pub struct TransferModel {
    /// What was fixed at the start.
    pub settings: Settings,
    /// The number of files that are done.
    pub processed: u64,
    /// Whether a stop was requested.
    pub cancel_requested: bool,
    /// The work that is left. The last task is the next one.
    pub agenda: Seq<TaskView>,
    /// The answer that is waited for.
    pub waiting: WaitingView,
}

impl TransferModel {
    /// The state before anything was asked of the device.
    pub open spec fn start(root: Seq<char>, settings: Settings) -> TransferModel {
        TransferModel {
            settings,
            processed: 0,
            cancel_requested: false,
            agenda: seq![TaskView::Enter { path: root }],
            waiting: WaitingView::Start,
        }
    }

    /// The transfer ends with `result`.
    pub open spec fn finish(self, result: Result<(), TransferError>) -> (
        TransferModel,
        ActionView,
    ) {
        (
            TransferModel { waiting: WaitingView::Closed { result }, ..self },
            ActionView::Finish { result },
        )
    }

    /// The next task is taken up. With none left, the transfer has
    /// succeeded; with work left and a stop requested, the transfer stops.
    /// A stop is honoured here, between two files or folders, and nowhere
    /// else: never between the copy of a file and its deletion or report.
    pub open spec fn advance(self) -> (TransferModel, ActionView) {
        if self.agenda.len() == 0 {
            self.finish(Ok(()))
        } else if self.cancel_requested {
            self.finish(Err(TransferError::CancellationRequested))
        } else {
            let rest = self.agenda.drop_last();
            match self.agenda.last() {
                TaskView::Enter { path } => (
                    TransferModel { agenda: rest, waiting: WaitingView::Folders { path }, ..self },
                    ActionView::ListFolders { path },
                ),
                TaskView::List { path } => (
                    TransferModel { agenda: rest, waiting: WaitingView::Files { path }, ..self },
                    ActionView::ListFiles { path },
                ),
                TaskView::Copy { folder, file } => (
                    TransferModel {
                        agenda: rest,
                        waiting: WaitingView::Download { folder, file },
                        ..self
                    },
                    ActionView::Download {
                        folder,
                        file,
                        destination: destination(self.settings.destination_root, folder, file),
                    },
                ),
            }
        }
    }

    /// A file is copied, and deleted if that was asked for: it is counted,
    /// and reported where a total is known.
    pub open spec fn complete_file(self) -> (TransferModel, ActionView) {
        if self.processed == u64::MAX {
            self.finish(Err(TransferError::CounterOverflow))
        } else {
            let processed = (self.processed + 1) as u64;
            let counted = TransferModel { processed, ..self };
            match self.settings.total {
                Some(total) => (
                    TransferModel { waiting: WaitingView::Report, ..counted },
                    ActionView::Report { processed, total },
                ),
                None => counted.advance(),
            }
        }
    }

    /// The state after `event`, and the action to perform next.
    pub open spec fn step(self, event: EventView) -> (TransferModel, ActionView) {
        match self.waiting {
            WaitingView::Start => match event {
                EventView::Started => self.advance(),
                _ => self.finish(Err(TransferError::UnexpectedEvent)),
            },
            WaitingView::Folders { path } => match event {
                EventView::Folders { names } => TransferModel {
                    agenda: stacked(self.agenda.push(TaskView::List { path }), enters(path, names)),
                    ..self
                }.advance(),
                EventView::Failed => self.finish(Err(TransferError::ListingError)),
                _ => self.finish(Err(TransferError::UnexpectedEvent)),
            },
            WaitingView::Files { path } => match event {
                EventView::Files { names } => TransferModel {
                    agenda: stacked(self.agenda, copies(path, names)),
                    ..self
                }.advance(),
                EventView::Failed => self.finish(Err(TransferError::ListingError)),
                _ => self.finish(Err(TransferError::UnexpectedEvent)),
            },
            WaitingView::Download { folder, file } => match event {
                EventView::Downloaded => if self.settings.delete_after_copy {
                    (
                        TransferModel { waiting: WaitingView::Delete { folder, file }, ..self },
                        ActionView::Delete { folder, file },
                    )
                } else {
                    self.complete_file()
                },
                EventView::Failed => self.finish(Err(TransferError::DownloadError)),
                _ => self.finish(Err(TransferError::UnexpectedEvent)),
            },
            WaitingView::Delete { folder, file } => match event {
                EventView::Deleted => self.complete_file(),
                EventView::Failed => self.finish(Err(TransferError::DeleteError)),
                _ => self.finish(Err(TransferError::UnexpectedEvent)),
            },
            WaitingView::Report => match event {
                EventView::Reported => self.advance(),
                _ => self.finish(Err(TransferError::UnexpectedEvent)),
            },
            WaitingView::Closed { result } => (self, ActionView::Finish { result }),
        }
    }

    /// The state after all of `events`, one step for each, and the actions
    /// handed out on the way: the action at an index answers the event there.
    pub open spec fn run(self, events: Seq<EventView>) -> (TransferModel, Seq<ActionView>)
        decreases events.len(),
    {
        if events.len() == 0 {
            (self, Seq::empty())
        } else {
            let (next, action) = self.step(events[0]);
            let (end, actions) = next.run(events.drop_first());
            (end, seq![action] + actions)
        }
    }
}

/// A transfer in progress.
pub struct TransferPass {
    destination_root: String,
    delete_after_copy: bool,
    total: Option<u64>,
    processed: u64,
    cancel_requested: bool,
    agenda: Vec<Task>,
    waiting: Waiting,
}

impl View for TransferPass {
    type V = TransferModel;

    closed spec fn view(&self) -> TransferModel {
        TransferModel {
            settings: Settings {
                destination_root: self.destination_root@,
                delete_after_copy: self.delete_after_copy,
                total: self.total,
            },
            processed: self.processed,
            cancel_requested: self.cancel_requested,
            agenda: self.agenda.deep_view(),
            waiting: self.waiting@,
        }
    }
}

impl TransferPass {
    /// A transfer of the folder `root` of the device into the local
    /// directory `destination_root`. With a `total` each finished file is
    /// reported against it; without one nothing is reported.
    pub fn new(
        root: &str,
        destination_root: &str,
        delete_after_copy: bool,
        total: Option<u64>,
    ) -> (r: TransferPass)
        ensures
            r@ == TransferModel::start(
                root@,
                Settings { destination_root: destination_root@, delete_after_copy, total },
            ),
    {
        let mut agenda: Vec<Task> = Vec::new();
        agenda.push(Task::Enter { path: String::from_str(root) });
        let r = TransferPass {
            destination_root: String::from_str(destination_root),
            delete_after_copy,
            total,
            processed: 0,
            cancel_requested: false,
            agenda,
            waiting: Waiting::Start,
        };
        assert(r@.agenda =~= seq![TaskView::Enter { path: root@ }]);
        r
    }

    /// Asks the transfer to stop. It does so with `CancellationRequested`
    /// once the file or the listing in hand is done, if work is left then.
    pub fn request_cancel(&mut self)
        ensures
            final(self)@ == (TransferModel { cancel_requested: true, ..old(self)@ }),
    {
        self.cancel_requested = true;
    }

    /// Whether the transfer was asked to stop.
    pub fn stop_requested(&self) -> (r: bool)
        ensures
            r == self@.cancel_requested,
    {
        self.cancel_requested
    }

    /// The number of files that are done: copied, and deleted where that was
    /// asked for.
    pub fn processed_files(&self) -> (r: u64)
        ensures
            r == self@.processed,
    {
        self.processed
    }

    /// The number of files against which each finished file is reported,
    /// if there is one.
    pub fn total(&self) -> (r: Option<u64>)
        ensures
            r == self@.settings.total,
    {
        self.total
    }

    /// The result of the transfer, once it is over.
    pub fn result(&self) -> (r: Option<Result<(), TransferError>>)
        ensures
            r == match self@.waiting {
                WaitingView::Closed { result } => Some(result),
                _ => None,
            },
    {
        match &self.waiting {
            Waiting::Closed { result } => Some(*result),
            _ => None,
        }
    }

    fn finish(self, result: Result<(), TransferError>) -> (r: (TransferPass, Action))
        ensures
            (r.0@, r.1@) == self@.finish(result),
    {
        (TransferPass { waiting: Waiting::Closed { result }, ..self }, Action::Finish { result })
    }

    fn advance(self) -> (r: (TransferPass, Action))
        ensures
            (r.0@, r.1@) == self@.advance(),
    {
        if self.agenda.len() > 0 && self.cancel_requested {
            return self.finish(Err(TransferError::CancellationRequested));
        }
        let mut next = self;
        let ghost before = next@;
        match next.agenda.pop() {
            None => next.finish(Ok(())),
            Some(task) => {
                assert(task@ == before.agenda.last());
                assert(next.agenda.deep_view() =~= before.agenda.drop_last());
                match task {
                    Task::Enter { path } => {
                        let action = Action::ListFolders { path: path.clone() };
                        (TransferPass { waiting: Waiting::Folders { path }, ..next }, action)
                    },
                    Task::List { path } => {
                        let action = Action::ListFiles { path: path.clone() };
                        (TransferPass { waiting: Waiting::Files { path }, ..next }, action)
                    },
                    Task::Copy { folder, file } => {
                        let action = Action::Download {
                            folder: folder.clone(),
                            file: file.clone(),
                            destination: destination_path(
                                next.destination_root.as_str(),
                                folder.as_str(),
                                file.as_str(),
                            ),
                        };
                        (
                            TransferPass { waiting: Waiting::Download { folder, file }, ..next },
                            action,
                        )
                    },
                }
            },
        }
    }

    fn complete_file(self) -> (r: (TransferPass, Action))
        ensures
            (r.0@, r.1@) == self@.complete_file(),
    {
        if self.processed == u64::MAX {
            self.finish(Err(TransferError::CounterOverflow))
        } else {
            let processed: u64 = self.processed + 1;
            match self.total {
                Some(total) => (
                    TransferPass { processed, waiting: Waiting::Report, ..self },
                    Action::Report { processed, total },
                ),
                None => (TransferPass { processed, ..self }).advance(),
            }
        }
    }

    /// Lays one `Enter` task for each of the folders `names` of `path` on
    /// the agenda, the first of them on top.
    fn push_folders(agenda: &mut Vec<Task>, path: &String, names: &Vec<String>)
        ensures
            final(agenda).deep_view() == stacked(
                old(agenda).deep_view(),
                enters(path@, names.deep_view()),
            ),
    {
        let ghost base = agenda.deep_view();
        let ghost tasks = enters(path@, names.deep_view());
        let mut i: usize = names.len();
        assert(tasks.subrange(i as int, tasks.len() as int) =~= Seq::<TaskView>::empty());
        while i > 0
            invariant
                i <= names.len(),
                tasks == enters(path@, names.deep_view()),
                agenda.deep_view() == stacked(base, tasks.subrange(i as int, tasks.len() as int)),
            decreases i,
        {
            i = i - 1;
            let ghost lower = agenda.deep_view();
            agenda.push(Task::Enter { path: join_path(path.as_str(), names[i].as_str()) });
            proof {
                let from = tasks.subrange(i as int, tasks.len() as int);
                assert(from.drop_first() =~= tasks.subrange(i + 1, tasks.len() as int));
                assert(agenda.deep_view() =~= lower.push(from[0]));
            }
        }
        assert(tasks.subrange(0, tasks.len() as int) =~= tasks);
    }

    /// Lays one `Copy` task for each of the files `names` of `folder` on the
    /// agenda, the first of them on top.
    fn push_files(agenda: &mut Vec<Task>, folder: &String, names: &Vec<String>)
        ensures
            final(agenda).deep_view() == stacked(
                old(agenda).deep_view(),
                copies(folder@, names.deep_view()),
            ),
    {
        let ghost base = agenda.deep_view();
        let ghost tasks = copies(folder@, names.deep_view());
        let mut i: usize = names.len();
        assert(tasks.subrange(i as int, tasks.len() as int) =~= Seq::<TaskView>::empty());
        while i > 0
            invariant
                i <= names.len(),
                tasks == copies(folder@, names.deep_view()),
                agenda.deep_view() == stacked(base, tasks.subrange(i as int, tasks.len() as int)),
            decreases i,
        {
            i = i - 1;
            let ghost lower = agenda.deep_view();
            agenda.push(Task::Copy { folder: folder.clone(), file: names[i].clone() });
            proof {
                let from = tasks.subrange(i as int, tasks.len() as int);
                assert(from.drop_first() =~= tasks.subrange(i + 1, tasks.len() as int));
                assert(agenda.deep_view() =~= lower.push(from[0]));
            }
        }
        assert(tasks.subrange(0, tasks.len() as int) =~= tasks);
    }

    /// Takes the answer to the action that was handed out last, and hands
    /// out the next one.
    pub fn step(self, event: Event) -> (r: (TransferPass, Action))
        ensures
            (r.0@, r.1@) == self@.step(event@),
    {
        let TransferPass {
            destination_root,
            delete_after_copy,
            total,
            processed,
            cancel_requested,
            agenda,
            waiting,
        } = self;
        let mut state = TransferPass {
            destination_root,
            delete_after_copy,
            total,
            processed,
            cancel_requested,
            agenda,
            waiting: Waiting::Start,
        };
        match waiting {
            Waiting::Start => match event {
                Event::Started => state.advance(),
                _ => state.finish(Err(TransferError::UnexpectedEvent)),
            },
            Waiting::Folders { path } => match event {
                Event::Folders { names } => {
                    state.agenda.push(Task::List { path: path.clone() });
                    assert(state.agenda.deep_view() =~= self@.agenda.push(
                        TaskView::List { path: path@ },
                    ));
                    Self::push_folders(&mut state.agenda, &path, &names);
                    state.advance()
                },
                Event::Failed => state.finish(Err(TransferError::ListingError)),
                _ => state.finish(Err(TransferError::UnexpectedEvent)),
            },
            Waiting::Files { path } => match event {
                Event::Files { names } => {
                    Self::push_files(&mut state.agenda, &path, &names);
                    state.advance()
                },
                Event::Failed => state.finish(Err(TransferError::ListingError)),
                _ => state.finish(Err(TransferError::UnexpectedEvent)),
            },
            Waiting::Download { folder, file } => match event {
                Event::Downloaded => if state.delete_after_copy {
                    let action = Action::Delete { folder: folder.clone(), file: file.clone() };
                    (TransferPass { waiting: Waiting::Delete { folder, file }, ..state }, action)
                } else {
                    state.complete_file()
                },
                Event::Failed => state.finish(Err(TransferError::DownloadError)),
                _ => state.finish(Err(TransferError::UnexpectedEvent)),
            },
            Waiting::Delete { folder, file } => match event {
                Event::Deleted => state.complete_file(),
                Event::Failed => state.finish(Err(TransferError::DeleteError)),
                _ => state.finish(Err(TransferError::UnexpectedEvent)),
            },
            Waiting::Report => match event {
                Event::Reported => state.advance(),
                _ => state.finish(Err(TransferError::UnexpectedEvent)),
            },
            Waiting::Closed { result } => (
                TransferPass { waiting: Waiting::Closed { result }, ..state },
                Action::Finish { result },
            ),
        }
    }
}

} // verus!
