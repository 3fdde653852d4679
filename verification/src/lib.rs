//! An image board kept as the state of a NEAR contract: threads with their
//! answers, the owner and the moderators who keep order, banned accounts,
//! and the fungible-token balance the board receives.

pub mod chain;
pub mod store;
pub mod model;
pub mod board;
pub mod laws;

pub use board::{BoardError, BoardParts, FtTransfer, ImageBoard, Invoice, Thread};
pub use store::StorageKey;
