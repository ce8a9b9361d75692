//! What an engine asks of the device, and what it is told in return.

use vstd::prelude::*;

verus! {

/// Why an operation stopped before it was complete.
#[derive(Clone, Copy, Debug, PartialEq, Eq, Structural)]
pub enum TransferError {
    /// The device could not list the folders or the files of a folder.
    ListingError,
    /// A file could not be copied from the device. It was not deleted.
    DownloadError,
    /// A file was copied, but could not be deleted from the device afterwards.
    DeleteError,
    /// A stop was requested, and honoured between two units of work.
    CancellationRequested,
    /// The event handed in does not answer the action that was handed out.
    UnexpectedEvent,
    /// There are more files than the counter can hold.
    CounterOverflow,
}

/// The next thing to do for an engine. Every action but `Finish` is answered
/// by one event.
#[derive(Debug, PartialEq, Eq)]
pub enum Action {
    /// List the names of the folders directly inside the folder `path`.
    ListFolders { path: String },
    /// List the names of the files directly inside the folder `path`.
    ListFiles { path: String },
    /// Copy the file `file` of the folder `folder` to the local path
    /// `destination`.
    Download { folder: String, file: String, destination: String },
    /// Delete the file `file` of the folder `folder` from the device.
    Delete { folder: String, file: String },
    /// Tell the observer that `processed` files out of `total` are done.
    Report { processed: u64, total: u64 },
    /// Nothing is left to do: the operation ended with `result`.
    Finish { result: Result<(), TransferError> },
}

/// What happened to the action that an engine handed out last.
#[derive(Debug, PartialEq, Eq)]
pub enum Event {
    /// Nothing was asked yet: the engine is to begin.
    Started,
    /// The folders that `ListFolders` asked for, in the device's order.
    Folders { names: Vec<String> },
    /// The files that `ListFiles` asked for, in the device's order.
    Files { names: Vec<String> },
    /// The file that `Download` named is written at its destination.
    Downloaded,
    /// The file that `Delete` named is gone from the device.
    Deleted,
    /// The observer has seen what `Report` carried.
    Reported,
    /// The action failed on the device.
    Failed,
}

/// An [`Action`] as a mathematical value.
pub enum ActionView {
    ListFolders { path: Seq<char> },
    ListFiles { path: Seq<char> },
    Download { folder: Seq<char>, file: Seq<char>, destination: Seq<char> },
    Delete { folder: Seq<char>, file: Seq<char> },
    Report { processed: u64, total: u64 },
    Finish { result: Result<(), TransferError> },
}

/// An [`Event`] as a mathematical value.
pub enum EventView {
    Started,
    Folders { names: Seq<Seq<char>> },
    Files { names: Seq<Seq<char>> },
    Downloaded,
    Deleted,
    Reported,
    Failed,
}

impl View for Action {
    type V = ActionView;

    open spec fn view(&self) -> ActionView {
        match *self {
            Action::ListFolders { path } => ActionView::ListFolders { path: path@ },
            Action::ListFiles { path } => ActionView::ListFiles { path: path@ },
            Action::Download { folder, file, destination } => ActionView::Download {
                folder: folder@,
                file: file@,
                destination: destination@,
            },
            Action::Delete { folder, file } => ActionView::Delete { folder: folder@, file: file@ },
            Action::Report { processed, total } => ActionView::Report { processed, total },
            Action::Finish { result } => ActionView::Finish { result },
        }
    }
}

impl View for Event {
    type V = EventView;

    open spec fn view(&self) -> EventView {
        match *self {
            Event::Started => EventView::Started,
            Event::Folders { names } => EventView::Folders { names: names.deep_view() },
            Event::Files { names } => EventView::Files { names: names.deep_view() },
            Event::Downloaded => EventView::Downloaded,
            Event::Deleted => EventView::Deleted,
            Event::Reported => EventView::Reported,
            Event::Failed => EventView::Failed,
        }
    }
}

} // verus!
