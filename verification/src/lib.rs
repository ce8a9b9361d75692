//! Recursive traversal and bulk transfer of the files held by an attached
//! device that exposes a tree of folders and files.
//!
//! The device itself is never touched from here. Each engine in this crate is
//! a state machine: it hands out the next request for the device as an
//! [`protocol::Action`] and takes the device's answer back as an
//! [`protocol::Event`]. Whoever owns the device connection runs the loop.
//!
//! - [`traversal`] reads the folder tree into a [`tree::FolderContent`].
//! - [`count`] counts the files of the tree without holding it.
//! - [`transfer`] copies every file to a local destination that mirrors the
//!   folders of the device, and deletes it from the device afterwards if
//!   that is wanted.
//! - [`coordinator`] puts a count before a transfer, so that each finished
//!   file can be reported against the number of all files.
//!
//! Each engine has a model, a transition function on mathematical values,
//! and its `step` is proved to compute that function. The modules whose
//! names end in `_laws` state what the models do against a device that
//! holds a given tree, and what they do whatever the device answers.

pub mod coordinator;
pub mod coordinator_laws;
pub mod count;
pub mod count_laws;
pub mod path;
pub mod protocol;
pub mod stack;
pub mod transfer;
pub mod transfer_laws;
pub mod traversal;
pub mod traversal_laws;
pub mod tree;
