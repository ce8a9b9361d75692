//! The transfer coordinator: a whole move of the files of a device, with or
//! without progress.
//!
//! With progress the files are counted first, and the transfer that follows
//! reports each finished file against that count. Without progress nothing
//! is counted and nothing is reported: the tree is walked once.

use crate::count::{CountModel, CountPass, FileCount};
use crate::protocol::{Action, ActionView, Event, EventView};
use crate::transfer::{Settings, TransferModel, TransferPass};
use vstd::prelude::*;

verus! {

/// The stage that a move is in.
pub enum Stage {
    /// The files are counted. The rest is kept for the transfer.
    Counting { count: CountPass, root: String, destination_root: String, delete_after_copy: bool },
    /// The files are transferred.
    Moving { transfer: TransferPass },
}

/// The state of a move as a mathematical value, with its transition
/// function.
pub enum CoordinatorModel {
    Counting {
        count: CountModel,
        root: Seq<char>,
        destination_root: Seq<char>,
        delete_after_copy: bool,
    },
    Moving { transfer: TransferModel },
}

impl View for Stage {
    type V = CoordinatorModel;

    open spec fn view(&self) -> CoordinatorModel {
        match *self {
            Stage::Counting { count, root, destination_root, delete_after_copy } => {
                CoordinatorModel::Counting {
                    count: count@,
                    root: root@,
                    destination_root: destination_root@,
                    delete_after_copy,
                }
            },
            Stage::Moving { transfer } => CoordinatorModel::Moving { transfer: transfer@ },
        }
    }
}

impl CoordinatorModel {
    /// The state of a move with progress before anything was asked: the
    /// files of `root` are to be counted first.
    pub open spec fn reporting(
        root: Seq<char>,
        destination_root: Seq<char>,
        delete_after_copy: bool,
    ) -> CoordinatorModel {
        CoordinatorModel::Counting {
            count: CountModel::start(root),
            root,
            destination_root,
            delete_after_copy,
        }
    }

    /// The state of a move without progress before anything was asked.
    pub open spec fn silent(
        root: Seq<char>,
        destination_root: Seq<char>,
        delete_after_copy: bool,
    ) -> CoordinatorModel {
        CoordinatorModel::Moving {
            transfer: TransferModel::start(
                root,
                Settings { destination_root, delete_after_copy, total: None },
            ),
        }
    }

    /// The state after `event`, and the action to perform next. A count
    /// that ends in success is followed at once by the transfer, which
    /// reports against the count and knows of a stop that was requested
    /// during the count; a count that fails ends the move.
    pub open spec fn step(self, event: EventView) -> (CoordinatorModel, ActionView) {
        match self {
            CoordinatorModel::Counting { count, root, destination_root, delete_after_copy } => {
                let (counted, action) = count.step(event);
                if action is Finish && action->result is Ok {
                    let (moving, first) = TransferModel {
                        cancel_requested: counted.cancel_requested,
                        ..TransferModel::start(
                            root,
                            Settings {
                                destination_root,
                                delete_after_copy,
                                total: Some(counted.total),
                            },
                        )
                    }.step(EventView::Started);
                    (CoordinatorModel::Moving { transfer: moving }, first)
                } else {
                    (
                        CoordinatorModel::Counting {
                            count: counted,
                            root,
                            destination_root,
                            delete_after_copy,
                        },
                        action,
                    )
                }
            },
            CoordinatorModel::Moving { transfer } => {
                let (moving, action) = transfer.step(event);
                (CoordinatorModel::Moving { transfer: moving }, action)
            },
        }
    }

    /// The state after all of `events`, one step for each, and the actions
    /// handed out on the way: the action at an index answers the event there.
    pub open spec fn run(self, events: Seq<EventView>) -> (CoordinatorModel, Seq<ActionView>)
        decreases events.len(),
    {
        if events.len() == 0 {
            (self, Seq::empty())
        } else {
            let (next, action) = self.step(events[0]);
            let (end, actions) = next.run(events.drop_first());
            (end, seq![action] + actions)
        }
    }

    /// Whether a stop was requested.
    pub open spec fn cancel_requested(self) -> bool {
        match self {
            CoordinatorModel::Counting { count, .. } => count.cancel_requested,
            CoordinatorModel::Moving { transfer } => transfer.cancel_requested,
        }
    }

    /// The state when a stop was requested.
    pub open spec fn cancelled(self) -> CoordinatorModel {
        match self {
            CoordinatorModel::Counting { count, root, destination_root, delete_after_copy } => {
                CoordinatorModel::Counting {
                    count: CountModel { cancel_requested: true, ..count },
                    root,
                    destination_root,
                    delete_after_copy,
                }
            },
            CoordinatorModel::Moving { transfer } => CoordinatorModel::Moving {
                transfer: TransferModel { cancel_requested: true, ..transfer },
            },
        }
    }

    /// The number of files that are done.
    pub open spec fn processed(self) -> u64 {
        match self {
            CoordinatorModel::Counting { .. } => 0,
            CoordinatorModel::Moving { transfer } => transfer.processed,
        }
    }

    /// The number of files that were counted, once the count is complete.
    pub open spec fn counted(self) -> Option<u64> {
        match self {
            CoordinatorModel::Counting { .. } => None,
            CoordinatorModel::Moving { transfer } => transfer.settings.total,
        }
    }
}

/// A move in progress.
pub struct Coordinator {
    stage: Stage,
}

impl View for Coordinator {
    type V = CoordinatorModel;

    closed spec fn view(&self) -> CoordinatorModel {
        self.stage@
    }
}

impl Coordinator {
    /// A move of the files of the folder `root` of the device into the
    /// local directory `destination_root`, with progress: the files are
    /// counted first, and each finished file is reported.
    pub fn reporting(root: &str, destination_root: &str, delete_after_copy: bool) -> (r:
        Coordinator)
        ensures
            r@ == CoordinatorModel::reporting(root@, destination_root@, delete_after_copy),
    {
        Coordinator {
            stage: Stage::Counting {
                count: CountPass::new(root),
                root: String::from_str(root),
                destination_root: String::from_str(destination_root),
                delete_after_copy,
            },
        }
    }

    /// A move of the files of the folder `root` of the device into the
    /// local directory `destination_root`, without progress: nothing is
    /// counted and nothing is reported.
    pub fn silent(root: &str, destination_root: &str, delete_after_copy: bool) -> (r: Coordinator)
        ensures
            r@ == CoordinatorModel::silent(root@, destination_root@, delete_after_copy),
    {
        Coordinator {
            stage: Stage::Moving {
                transfer: TransferPass::new(root, destination_root, delete_after_copy, None),
            },
        }
    }

    /// Asks the move to stop. It does so with `CancellationRequested` once
    /// the listing or the file in hand is done, if work is left then.
    pub fn request_cancel(&mut self)
        ensures
            final(self)@ == old(self)@.cancelled(),
    {
        match &mut self.stage {
            Stage::Counting { count, .. } => {
                count.request_cancel();
            },
            Stage::Moving { transfer } => {
                transfer.request_cancel();
            },
        }
    }

    /// Whether the move was asked to stop.
    pub fn stop_requested(&self) -> (r: bool)
        ensures
            r == self@.cancel_requested(),
    {
        match &self.stage {
            Stage::Counting { count, .. } => count.stop_requested(),
            Stage::Moving { transfer } => transfer.stop_requested(),
        }
    }

    /// The number of files that are done: copied, and deleted where that
    /// was asked for.
    pub fn processed_files(&self) -> (r: u64)
        ensures
            r == self@.processed(),
    {
        match &self.stage {
            Stage::Counting { .. } => 0,
            Stage::Moving { transfer } => transfer.processed_files(),
        }
    }

    /// The number of files that were counted, once the count is complete.
    /// A move without progress counts nothing.
    pub fn file_count(&self) -> (r: Option<FileCount>)
        ensures
            r matches Some(count) ==> self@.counted() == Some(count.total_files),
            r is None ==> self@.counted() is None,
    {
        match &self.stage {
            Stage::Counting { .. } => None,
            Stage::Moving { transfer } => match transfer.total() {
                Some(total_files) => Some(FileCount { total_files }),
                None => None,
            },
        }
    }

    /// Takes the answer to the action that was handed out last, and hands
    /// out the next one.
    pub fn step(self, event: Event) -> (r: (Coordinator, Action))
        ensures
            (r.0@, r.1@) == self@.step(event@),
    {
        match self.stage {
            Stage::Counting { count, root, destination_root, delete_after_copy } => {
                let (counted, action) = count.step(event);
                let complete = match &action {
                    Action::Finish { result } => result.is_ok(),
                    _ => false,
                };
                if complete {
                    let total: u64 = match counted.file_count() {
                        Some(found) => found.total_files,
                        None => {
                            assert(false);
                            0
                        },
                    };
                    let mut transfer = TransferPass::new(
                        root.as_str(),
                        destination_root.as_str(),
                        delete_after_copy,
                        Some(total),
                    );
                    if counted.stop_requested() {
                        transfer.request_cancel();
                    }
                    let (moving, first) = transfer.step(Event::Started);
                    (Coordinator { stage: Stage::Moving { transfer: moving } }, first)
                } else {
                    (
                        Coordinator {
                            stage: Stage::Counting {
                                count: counted,
                                root,
                                destination_root,
                                delete_after_copy,
                            },
                        },
                        action,
                    )
                }
            },
            Stage::Moving { transfer } => {
                let (moving, action) = transfer.step(event);
                (Coordinator { stage: Stage::Moving { transfer: moving } }, action)
            },
        }
    }
}

} // verus!
