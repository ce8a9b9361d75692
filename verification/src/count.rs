//! The count pass: the files of a folder tree are counted from listings
//! alone, without holding the tree in memory.

use crate::path::{join, join_path};
use crate::protocol::{Action, ActionView, Event, EventView, TransferError};
use crate::stack::stacked;
use vstd::prelude::*;

verus! {

/// The number of files in a folder and in all folders below it.
#[derive(Clone, Copy, Debug, PartialEq, Eq, Structural)]
pub struct FileCount {
    pub total_files: u64,
}

/// The answer that a count waits for.
pub enum CountWaiting {
    /// Nothing was asked yet.
    Start,
    /// The files of `path` were asked for.
    Files { path: String },
    /// The folders of `path`, whose files are counted, were asked for.
    Folders { path: String },
    /// The count is over.
    Closed { result: Result<(), TransferError> },
}

/// A [`CountWaiting`] as a mathematical value.
pub enum CountWaitingView {
    Start,
    Files { path: Seq<char> },
    Folders { path: Seq<char> },
    Closed { result: Result<(), TransferError> },
}

impl View for CountWaiting {
    type V = CountWaitingView;

    open spec fn view(&self) -> CountWaitingView {
        match *self {
            CountWaiting::Start => CountWaitingView::Start,
            CountWaiting::Files { path } => CountWaitingView::Files { path: path@ },
            CountWaiting::Folders { path } => CountWaitingView::Folders { path: path@ },
            CountWaiting::Closed { result } => CountWaitingView::Closed { result },
        }
    }
}

/// The paths of the folders `names` of the folder `path`.
pub open spec fn children(path: Seq<char>, names: Seq<Seq<char>>) -> Seq<Seq<char>> {
    Seq::new(names.len(), |i: int| join(path, names[i]))
}

/// The state of a count as a mathematical value, with its transition
/// function.
pub struct CountModel {
    /// The number of files counted so far.
    pub total: u64,
    /// Whether a stop was requested.
    pub cancel_requested: bool,
    /// The folders that are still to be walked. The last one is the next.
    pub pending: Seq<Seq<char>>,
    /// The answer that is waited for.
    pub waiting: CountWaitingView,
}

impl CountModel {
    /// The state before anything was asked of the device.
    pub open spec fn start(root: Seq<char>) -> CountModel {
        CountModel {
            total: 0,
            cancel_requested: false,
            pending: seq![root],
            waiting: CountWaitingView::Start,
        }
    }

    /// The count ends with `result`.
    pub open spec fn finish(self, result: Result<(), TransferError>) -> (CountModel, ActionView) {
        (
            CountModel { waiting: CountWaitingView::Closed { result }, ..self },
            ActionView::Finish { result },
        )
    }

    /// The next folder is taken up. With none left, the count is complete;
    /// with folders left and a stop requested, the count stops. A stop is
    /// honoured here, between two folders, and nowhere else.
    pub open spec fn advance(self) -> (CountModel, ActionView) {
        if self.pending.len() == 0 {
            self.finish(Ok(()))
        } else if self.cancel_requested {
            self.finish(Err(TransferError::CancellationRequested))
        } else {
            let path = self.pending.last();
            (
                CountModel {
                    pending: self.pending.drop_last(),
                    waiting: CountWaitingView::Files { path },
                    ..self
                },
                ActionView::ListFiles { path },
            )
        }
    }

    /// The state after `event`, and the action to perform next.
    pub open spec fn step(self, event: EventView) -> (CountModel, ActionView) {
        match self.waiting {
            CountWaitingView::Start => match event {
                EventView::Started => self.advance(),
                _ => self.finish(Err(TransferError::UnexpectedEvent)),
            },
            CountWaitingView::Files { path } => match event {
                EventView::Files { names } => if self.total + names.len() > u64::MAX {
                    self.finish(Err(TransferError::CounterOverflow))
                } else {
                    (
                        CountModel {
                            total: (self.total + names.len()) as u64,
                            waiting: CountWaitingView::Folders { path },
                            ..self
                        },
                        ActionView::ListFolders { path },
                    )
                },
                EventView::Failed => self.finish(Err(TransferError::ListingError)),
                _ => self.finish(Err(TransferError::UnexpectedEvent)),
            },
            CountWaitingView::Folders { path } => match event {
                EventView::Folders { names } => CountModel {
                    pending: stacked(self.pending, children(path, names)),
                    ..self
                }.advance(),
                EventView::Failed => self.finish(Err(TransferError::ListingError)),
                _ => self.finish(Err(TransferError::UnexpectedEvent)),
            },
            CountWaitingView::Closed { result } => (self, ActionView::Finish { result }),
        }
    }

    /// What the count has to show: the number of files, if all folders were
    /// listed.
    pub open spec fn outcome(self) -> Option<FileCount> {
        match self.waiting {
            CountWaitingView::Closed { result } => if result is Ok {
                Some(FileCount { total_files: self.total })
            } else {
                None
            },
            _ => None,
        }
    }

    /// The state after all of `events`, one step for each, and the actions
    /// handed out on the way: the action at an index answers the event there.
    pub open spec fn run(self, events: Seq<EventView>) -> (CountModel, Seq<ActionView>)
        decreases events.len(),
    {
        if events.len() == 0 {
            (self, Seq::empty())
        } else {
            let (next, action) = self.step(events[0]);
            let (end, actions) = next.run(events.drop_first());
            (end, seq![action] + actions)
        }
    }
}

/// A count in progress.
pub struct CountPass {
    total: u64,
    cancel_requested: bool,
    pending: Vec<String>,
    waiting: CountWaiting,
}

impl View for CountPass {
    type V = CountModel;

    closed spec fn view(&self) -> CountModel {
        CountModel {
            total: self.total,
            cancel_requested: self.cancel_requested,
            pending: self.pending.deep_view(),
            waiting: self.waiting@,
        }
    }
}

impl CountPass {
    /// A count of the files in the folder `root` of the device and below.
    pub fn new(root: &str) -> (r: CountPass)
        ensures
            r@ == CountModel::start(root@),
    {
        let mut pending: Vec<String> = Vec::new();
        pending.push(String::from_str(root));
        let r = CountPass {
            total: 0,
            cancel_requested: false,
            pending,
            waiting: CountWaiting::Start,
        };
        assert(r@.pending =~= seq![root@]);
        r
    }

    /// Asks the count to stop. It does so with `CancellationRequested` once
    /// the folder in hand is listed, if folders are left then.
    pub fn request_cancel(&mut self)
        ensures
            final(self)@ == (CountModel { cancel_requested: true, ..old(self)@ }),
    {
        self.cancel_requested = true;
    }

    /// Whether the count was asked to stop.
    pub fn stop_requested(&self) -> (r: bool)
        ensures
            r == self@.cancel_requested,
    {
        self.cancel_requested
    }

    /// The number of files in the whole tree, if the count has ended in
    /// success. A count that failed, was stopped or is not over hands out
    /// nothing.
    pub fn file_count(&self) -> (r: Option<FileCount>)
        ensures
            r == self@.outcome(),
    {
        match &self.waiting {
            CountWaiting::Closed { result } => match result {
                Ok(_) => Some(FileCount { total_files: self.total }),
                Err(_) => None,
            },
            _ => None,
        }
    }

    /// The result of the count, once it is over.
    pub fn result(&self) -> (r: Option<Result<(), TransferError>>)
        ensures
            r == match self@.waiting {
                CountWaitingView::Closed { result } => Some(result),
                _ => None,
            },
    {
        match &self.waiting {
            CountWaiting::Closed { result } => Some(*result),
            _ => None,
        }
    }

    fn finish(self, result: Result<(), TransferError>) -> (r: (CountPass, Action))
        ensures
            (r.0@, r.1@) == self@.finish(result),
    {
        (CountPass { waiting: CountWaiting::Closed { result }, ..self }, Action::Finish { result })
    }

    fn advance(self) -> (r: (CountPass, Action))
        ensures
            (r.0@, r.1@) == self@.advance(),
    {
        if self.pending.len() > 0 && self.cancel_requested {
            return self.finish(Err(TransferError::CancellationRequested));
        }
        let mut next = self;
        let ghost before = next@;
        match next.pending.pop() {
            None => next.finish(Ok(())),
            Some(path) => {
                assert(path@ == before.pending.last());
                assert(next.pending.deep_view() =~= before.pending.drop_last());
                let action = Action::ListFiles { path: path.clone() };
                (CountPass { waiting: CountWaiting::Files { path }, ..next }, action)
            },
        }
    }

    /// Lays the path of each of the folders `names` of `path` on the
    /// pending folders, the first of them on top.
    fn push_children(pending: &mut Vec<String>, path: &String, names: &Vec<String>)
        ensures
            final(pending).deep_view() == stacked(
                old(pending).deep_view(),
                children(path@, names.deep_view()),
            ),
    {
        let ghost base = pending.deep_view();
        let ghost paths = children(path@, names.deep_view());
        let mut i: usize = names.len();
        assert(paths.subrange(i as int, paths.len() as int) =~= Seq::<Seq<char>>::empty());
        while i > 0
            invariant
                i <= names.len(),
                paths == children(path@, names.deep_view()),
                pending.deep_view() == stacked(base, paths.subrange(i as int, paths.len() as int)),
            decreases i,
        {
            i = i - 1;
            let ghost lower = pending.deep_view();
            pending.push(join_path(path.as_str(), names[i].as_str()));
            proof {
                let from = paths.subrange(i as int, paths.len() as int);
                assert(from.drop_first() =~= paths.subrange(i + 1, paths.len() as int));
                assert(pending.deep_view() =~= lower.push(from[0]));
            }
        }
        assert(paths.subrange(0, paths.len() as int) =~= paths);
    }

    /// Takes the answer to the action that was handed out last, and hands
    /// out the next one.
    pub fn step(self, event: Event) -> (r: (CountPass, Action))
        ensures
            (r.0@, r.1@) == self@.step(event@),
    {
        let CountPass { total, cancel_requested, pending, waiting } = self;
        let mut state = CountPass {
            total,
            cancel_requested,
            pending,
            waiting: CountWaiting::Start,
        };
        match waiting {
            CountWaiting::Start => match event {
                Event::Started => state.advance(),
                _ => state.finish(Err(TransferError::UnexpectedEvent)),
            },
            CountWaiting::Files { path } => match event {
                Event::Files { names } => {
                    let found: u64 = names.len() as u64;
                    assert(found == names.deep_view().len());
                    if found > u64::MAX - state.total {
                        state.finish(Err(TransferError::CounterOverflow))
                    } else {
                        let action = Action::ListFolders { path: path.clone() };
                        (
                            CountPass {
                                total: state.total + found,
                                waiting: CountWaiting::Folders { path },
                                ..state
                            },
                            action,
                        )
                    }
                },
                Event::Failed => state.finish(Err(TransferError::ListingError)),
                _ => state.finish(Err(TransferError::UnexpectedEvent)),
            },
            CountWaiting::Folders { path } => match event {
                Event::Folders { names } => {
                    Self::push_children(&mut state.pending, &path, &names);
                    state.advance()
                },
                Event::Failed => state.finish(Err(TransferError::ListingError)),
                _ => state.finish(Err(TransferError::UnexpectedEvent)),
            },
            CountWaiting::Closed { result } => (
                CountPass { waiting: CountWaiting::Closed { result }, ..state },
                Action::Finish { result },
            ),
        }
    }
}

} // verus!
