//! The traversal engine: the folder tree of the device is read into memory,
//! folder by folder, from listings alone.
//!
//! A folder is closed, with its files, once all folders below it are
//! closed; a closed folder becomes a sub-folder of the folder above it. No
//! part of the tree is handed out unless all of it was read.

use crate::path::{join, join_path};
use crate::protocol::{Action, ActionView, Event, EventView, TransferError};
use crate::stack::stacked;
use crate::tree::{lemma_with_folder_well_formed, FolderContent, Tree};
use vstd::prelude::*;

verus! {

/// A unit of work that a traversal has still before it.
pub enum FolderTask {
    /// Open the folder `path`, which is called `name` in the folder above
    /// it, and list its folders.
    Open { path: String, name: String },
    /// List the files of the folder `path`, whose sub-folders are closed,
    /// and close it.
    Close { path: String },
}

/// A [`FolderTask`] as a mathematical value.
pub enum FolderTaskView {
    Open { path: Seq<char>, name: Seq<char> },
    Close { path: Seq<char> },
}

impl View for FolderTask {
    type V = FolderTaskView;

    open spec fn view(&self) -> FolderTaskView {
        match *self {
            FolderTask::Open { path, name } => FolderTaskView::Open { path: path@, name: name@ },
            FolderTask::Close { path } => FolderTaskView::Close { path: path@ },
        }
    }
}

impl DeepView for FolderTask {
    type V = FolderTaskView;

    open spec fn deep_view(&self) -> FolderTaskView {
        self@
    }
}

/// A folder that is open: its name in the folder above it, and what was
/// read of it so far.
pub struct Partial {
    name: String,
    content: FolderContent,
}

/// A [`Partial`] as a mathematical value.
pub struct PartialView {
    pub name: Seq<char>,
    pub content: Tree,
}

impl View for Partial {
    type V = PartialView;

    closed spec fn view(&self) -> PartialView {
        PartialView { name: self.name@, content: self.content@ }
    }
}

impl DeepView for Partial {
    type V = PartialView;

    open spec fn deep_view(&self) -> PartialView {
        self@
    }
}

/// The answer that a traversal waits for.
pub enum TraversalWaiting {
    /// Nothing was asked yet.
    Start,
    /// The folders of `path` were asked for.
    Folders { path: String },
    /// The files of `path` were asked for.
    Files { path: String },
    /// The traversal is over.
    Closed { result: Result<(), TransferError> },
}

/// A [`TraversalWaiting`] as a mathematical value.
pub enum TraversalWaitingView {
    Start,
    Folders { path: Seq<char> },
    Files { path: Seq<char> },
    Closed { result: Result<(), TransferError> },
}

impl View for TraversalWaiting {
    type V = TraversalWaitingView;

    open spec fn view(&self) -> TraversalWaitingView {
        match *self {
            TraversalWaiting::Start => TraversalWaitingView::Start,
            TraversalWaiting::Folders { path } => TraversalWaitingView::Folders { path: path@ },
            TraversalWaiting::Files { path } => TraversalWaitingView::Files { path: path@ },
            TraversalWaiting::Closed { result } => TraversalWaitingView::Closed { result },
        }
    }
}

/// One `Open` task for each of the folders `names` of the folder `path`.
pub open spec fn opens(path: Seq<char>, names: Seq<Seq<char>>) -> Seq<FolderTaskView> {
    Seq::new(
        names.len(),
        |i: int| FolderTaskView::Open { path: join(path, names[i]), name: names[i] },
    )
}

/// The state of a traversal as a mathematical value, with its transition
/// function.
pub struct TraversalModel {
    /// Whether a stop was requested.
    pub cancel_requested: bool,
    /// The work that is left. The last task is the next one.
    pub agenda: Seq<FolderTaskView>,
    /// The folders that are open, each inside the one before it.
    pub open: Seq<PartialView>,
    /// What the topmost folder holds, once it is closed.
    pub found: Option<Tree>,
    /// The answer that is waited for.
    pub waiting: TraversalWaitingView,
}

impl TraversalModel {
    /// The state before anything was asked of the device.
    pub open spec fn start(root: Seq<char>) -> TraversalModel {
        TraversalModel {
            cancel_requested: false,
            agenda: seq![FolderTaskView::Open { path: root, name: root }],
            open: Seq::empty(),
            found: None,
            waiting: TraversalWaitingView::Start,
        }
    }

    /// The traversal ends with `result`.
    pub open spec fn finish(self, result: Result<(), TransferError>) -> (
        TraversalModel,
        ActionView,
    ) {
        (
            TraversalModel { waiting: TraversalWaitingView::Closed { result }, ..self },
            ActionView::Finish { result },
        )
    }

    /// The next task is taken up. With none left, the traversal has
    /// succeeded; with work left and a stop requested, the traversal stops.
    /// A stop is honoured here, between two listings, and nowhere else.
    pub open spec fn advance(self) -> (TraversalModel, ActionView) {
        if self.agenda.len() == 0 {
            self.finish(Ok(()))
        } else if self.cancel_requested {
            self.finish(Err(TransferError::CancellationRequested))
        } else {
            let rest = self.agenda.drop_last();
            match self.agenda.last() {
                FolderTaskView::Open { path, name } => (
                    TraversalModel {
                        agenda: rest,
                        open: self.open.push(PartialView { name, content: Tree::empty() }),
                        waiting: TraversalWaitingView::Folders { path },
                        ..self
                    },
                    ActionView::ListFolders { path },
                ),
                FolderTaskView::Close { path } => (
                    TraversalModel {
                        agenda: rest,
                        waiting: TraversalWaitingView::Files { path },
                        ..self
                    },
                    ActionView::ListFiles { path },
                ),
            }
        }
    }

    /// The innermost open folder is closed with the files `files`: it
    /// becomes a sub-folder of the folder around it, or what was found if
    /// it is the topmost.
    pub open spec fn close(self, files: Seq<Seq<char>>) -> TraversalModel {
        let top = self.open.last();
        let node = Tree { files, ..top.content };
        let around = self.open.drop_last();
        if around.len() == 0 {
            TraversalModel { open: around, found: Some(node), ..self }
        } else {
            let parent = around.last();
            TraversalModel {
                open: around.drop_last().push(
                    PartialView {
                        name: parent.name,
                        content: parent.content.with_folder(top.name, node),
                    },
                ),
                ..self
            }
        }
    }

    /// The state after `event`, and the action to perform next.
    pub open spec fn step(self, event: EventView) -> (TraversalModel, ActionView) {
        match self.waiting {
            TraversalWaitingView::Start => match event {
                EventView::Started => self.advance(),
                _ => self.finish(Err(TransferError::UnexpectedEvent)),
            },
            TraversalWaitingView::Folders { path } => match event {
                EventView::Folders { names } => TraversalModel {
                    agenda: stacked(
                        self.agenda.push(FolderTaskView::Close { path }),
                        opens(path, names),
                    ),
                    ..self
                }.advance(),
                EventView::Failed => self.finish(Err(TransferError::ListingError)),
                _ => self.finish(Err(TransferError::UnexpectedEvent)),
            },
            TraversalWaitingView::Files { path } => match event {
                EventView::Files { names } => if self.open.len() == 0 {
                    self.finish(Err(TransferError::UnexpectedEvent))
                } else {
                    self.close(names).advance()
                },
                EventView::Failed => self.finish(Err(TransferError::ListingError)),
                _ => self.finish(Err(TransferError::UnexpectedEvent)),
            },
            TraversalWaitingView::Closed { result } => (self, ActionView::Finish { result }),
        }
    }

    /// The state after all of `events`, one step for each, and the actions
    /// handed out on the way: the action at an index answers the event there.
    pub open spec fn run(self, events: Seq<EventView>) -> (TraversalModel, Seq<ActionView>)
        decreases events.len(),
    {
        if events.len() == 0 {
            (self, Seq::empty())
        } else {
            let (next, action) = self.step(events[0]);
            let (end, actions) = next.run(events.drop_first());
            (end, seq![action] + actions)
        }
    }

    /// What the traversal has to show: the tree, if all of it was read.
    pub open spec fn outcome(self) -> Option<Tree> {
        match self.waiting {
            TraversalWaitingView::Closed { result } => if result is Ok {
                self.found
            } else {
                None
            },
            _ => None,
        }
    }
}

/// Every folder that `state` holds, open or found, is well-formed.
pub open spec fn sound(state: TraversalModel) -> bool {
    &&& forall|i: int|
        0 <= i < state.open.len() ==> (#[trigger] state.open[i]).content.well_formed()
    &&& state.found matches Some(tree) ==> tree.well_formed()
}

/// A step keeps every folder well-formed, whatever the event.
pub proof fn lemma_step_keeps_sound(state: TraversalModel, event: EventView)
    requires
        sound(state),
    ensures
        sound(state.step(event).0),
{
    let next = state.step(event).0;
    if state.waiting is Files && event is Files && state.open.len() > 0 {
        let files = event->Files_names;
        let shut = state.close(files);
        let top = state.open.last();
        let node = Tree { files, ..top.content };
        assert(node.well_formed());
        let around = state.open.drop_last();
        if around.len() > 0 {
            let parent = around.last();
            lemma_with_folder_well_formed(parent.content, top.name, node);
            assert forall|i: int| 0 <= i < shut.open.len() implies (
            #[trigger] shut.open[i]).content.well_formed() by {
                if i < shut.open.len() - 1 {
                    assert(shut.open[i] == state.open[i]);
                }
            }
        }
        assert(sound(shut));
        lemma_advance_keeps_sound(shut);
    } else if state.waiting is Folders && event is Folders {
        let path = state.waiting->Folders_path;
        let listed = TraversalModel {
            agenda: stacked(
                state.agenda.push(FolderTaskView::Close { path }),
                opens(path, event->Folders_names),
            ),
            ..state
        };
        lemma_advance_keeps_sound(listed);
    } else if state.waiting is Start && event is Started {
        lemma_advance_keeps_sound(state);
    }
}

/// Taking up the next task keeps every folder well-formed.
proof fn lemma_advance_keeps_sound(state: TraversalModel)
    requires
        sound(state),
    ensures
        sound(state.advance().0),
{
    let next = state.advance().0;
    assert forall|i: int| 0 <= i < next.open.len() implies (
    #[trigger] next.open[i]).content.well_formed() by {
        if i < state.open.len() {
            assert(next.open[i] == state.open[i]);
        }
    }
}

/// A traversal in progress.
pub struct Traversal {
    cancel_requested: bool,
    agenda: Vec<FolderTask>,
    open: Vec<Partial>,
    found: Option<FolderContent>,
    waiting: TraversalWaiting,
}

/// `found` as a mathematical value.
pub open spec fn found_view(found: Option<FolderContent>) -> Option<Tree> {
    match found {
        Some(content) => Some(content@),
        None => None,
    }
}

impl View for Traversal {
    type V = TraversalModel;

    closed spec fn view(&self) -> TraversalModel {
        TraversalModel {
            cancel_requested: self.cancel_requested,
            agenda: self.agenda.deep_view(),
            open: self.open.deep_view(),
            found: found_view(self.found),
            waiting: self.waiting@,
        }
    }
}

impl Traversal {
    /// A traversal of the folder `root` of the device and all below it.
    pub fn new(root: &str) -> (r: Traversal)
        ensures
            r@ == TraversalModel::start(root@),
            sound(r@),
    {
        let mut agenda: Vec<FolderTask> = Vec::new();
        agenda.push(
            FolderTask::Open { path: String::from_str(root), name: String::from_str(root) },
        );
        let r = Traversal {
            cancel_requested: false,
            agenda,
            open: Vec::new(),
            found: None,
            waiting: TraversalWaiting::Start,
        };
        assert(r@.agenda =~= seq![FolderTaskView::Open { path: root@, name: root@ }]);
        assert(r@.open =~= Seq::<PartialView>::empty());
        r
    }

    /// Asks the traversal to stop. It does so with `CancellationRequested`
    /// once the listing in hand is done, if work is left then.
    pub fn request_cancel(&mut self)
        ensures
            final(self)@ == (TraversalModel { cancel_requested: true, ..old(self)@ }),
            sound(old(self)@) ==> sound(final(self)@),
    {
        self.cancel_requested = true;
    }

    /// Whether the traversal was asked to stop.
    pub fn stop_requested(&self) -> (r: bool)
        ensures
            r == self@.cancel_requested,
    {
        self.cancel_requested
    }

    /// The result of the traversal, once it is over.
    pub fn result(&self) -> (r: Option<Result<(), TransferError>>)
        ensures
            r == match self@.waiting {
                TraversalWaitingView::Closed { result } => Some(result),
                _ => None,
            },
    {
        match &self.waiting {
            TraversalWaiting::Closed { result } => Some(*result),
            _ => None,
        }
    }

    /// The tree that was read, if the traversal has ended in success. A
    /// traversal that failed, was stopped or is not over hands out nothing.
    pub fn into_content(self) -> (r: Option<FolderContent>)
        ensures
            found_view(r) == self@.outcome(),
            sound(self@) ==> (r matches Some(content) ==> content@.well_formed()),
    {
        match self.waiting {
            TraversalWaiting::Closed { result } => match result {
                Ok(_) => self.found,
                Err(_) => None,
            },
            _ => None,
        }
    }

    fn finish(self, result: Result<(), TransferError>) -> (r: (Traversal, Action))
        ensures
            (r.0@, r.1@) == self@.finish(result),
    {
        (
            Traversal { waiting: TraversalWaiting::Closed { result }, ..self },
            Action::Finish { result },
        )
    }

    fn advance(self) -> (r: (Traversal, Action))
        ensures
            (r.0@, r.1@) == self@.advance(),
    {
        if self.agenda.len() > 0 && self.cancel_requested {
            return self.finish(Err(TransferError::CancellationRequested));
        }
        let mut next = self;
        let ghost before = next@;
        match next.agenda.pop() {
            None => next.finish(Ok(())),
            Some(task) => {
                assert(task@ == before.agenda.last());
                assert(next.agenda.deep_view() =~= before.agenda.drop_last());
                match task {
                    FolderTask::Open { path, name } => {
                        let action = Action::ListFolders { path: path.clone() };
                        let partial = Partial { name, content: FolderContent::new() };
                        next.open.push(partial);
                        assert(next.open.deep_view() =~= before.open.push(partial@));
                        (Traversal { waiting: TraversalWaiting::Folders { path }, ..next }, action)
                    },
                    FolderTask::Close { path } => {
                        let action = Action::ListFiles { path: path.clone() };
                        (Traversal { waiting: TraversalWaiting::Files { path }, ..next }, action)
                    },
                }
            },
        }
    }

    fn close(self, files: Vec<String>) -> (r: Traversal)
        requires
            self@.open.len() > 0,
        ensures
            r@ == self@.close(files.deep_view()),
    {
        let mut next = self;
        let ghost before = next@;
        match next.open.pop() {
            None => next,
            Some(top) => {
                assert(top@ == before.open.last());
                assert(next.open.deep_view() =~= before.open.drop_last());
                let Partial { name, content } = top;
                let mut node = content;
                node.set_files(files);
                match next.open.pop() {
                    None => Traversal { found: Some(node), ..next },
                    Some(parent) => {
                        assert(parent@ == before.open.drop_last().last());
                        assert(next.open.deep_view() =~= before.open.drop_last().drop_last());
                        let ghost lower = next.open.deep_view();
                        let mut around = parent;
                        around.content.insert_folder(name, node);
                        next.open.push(around);
                        assert(next.open.deep_view() =~= lower.push(around@));
                        next
                    },
                }
            },
        }
    }

    /// Lays one `Open` task for each of the folders `names` of `path` on
    /// the agenda, the first of them on top.
    fn push_folders(agenda: &mut Vec<FolderTask>, path: &String, names: &Vec<String>)
        ensures
            final(agenda).deep_view() == stacked(
                old(agenda).deep_view(),
                opens(path@, names.deep_view()),
            ),
    {
        let ghost base = agenda.deep_view();
        let ghost tasks = opens(path@, names.deep_view());
        let mut i: usize = names.len();
        assert(tasks.subrange(i as int, tasks.len() as int) =~= Seq::<FolderTaskView>::empty());
        while i > 0
            invariant
                i <= names.len(),
                tasks == opens(path@, names.deep_view()),
                agenda.deep_view() == stacked(base, tasks.subrange(i as int, tasks.len() as int)),
            decreases i,
        {
            i = i - 1;
            let ghost lower = agenda.deep_view();
            agenda.push(
                FolderTask::Open {
                    path: join_path(path.as_str(), names[i].as_str()),
                    name: names[i].clone(),
                },
            );
            proof {
                let from = tasks.subrange(i as int, tasks.len() as int);
                assert(from.drop_first() =~= tasks.subrange(i + 1, tasks.len() as int));
                assert(agenda.deep_view() =~= lower.push(from[0]));
            }
        }
        assert(tasks.subrange(0, tasks.len() as int) =~= tasks);
    }

    /// Takes the answer to the action that was handed out last, and hands
    /// out the next one.
    pub fn step(self, event: Event) -> (r: (Traversal, Action))
        ensures
            (r.0@, r.1@) == self@.step(event@),
            sound(self@) ==> sound(r.0@),
    {
        proof {
            if sound(self@) {
                lemma_step_keeps_sound(self@, event@);
            }
        }
        let Traversal { cancel_requested, agenda, open, found, waiting } = self;
        let mut state = Traversal {
            cancel_requested,
            agenda,
            open,
            found,
            waiting: TraversalWaiting::Start,
        };
        match waiting {
            TraversalWaiting::Start => match event {
                Event::Started => state.advance(),
                _ => state.finish(Err(TransferError::UnexpectedEvent)),
            },
            TraversalWaiting::Folders { path } => match event {
                Event::Folders { names } => {
                    state.agenda.push(FolderTask::Close { path: path.clone() });
                    assert(state.agenda.deep_view() =~= self@.agenda.push(
                        FolderTaskView::Close { path: path@ },
                    ));
                    Self::push_folders(&mut state.agenda, &path, &names);
                    state.advance()
                },
                Event::Failed => state.finish(Err(TransferError::ListingError)),
                _ => state.finish(Err(TransferError::UnexpectedEvent)),
            },
            TraversalWaiting::Files { path } => match event {
                Event::Files { names } => if state.open.len() == 0 {
                    state.finish(Err(TransferError::UnexpectedEvent))
                } else {
                    state.close(names).advance()
                },
                Event::Failed => state.finish(Err(TransferError::ListingError)),
                _ => state.finish(Err(TransferError::UnexpectedEvent)),
            },
            TraversalWaiting::Closed { result } => (
                Traversal { waiting: TraversalWaiting::Closed { result }, ..state },
                Action::Finish { result },
            ),
        }
    }
}

} // verus!
