//! What holds of sessions as a whole.
//!
//! The laws speak of [`crate::protocol::Run`], on which the engine's contracts
//! are stated, so each of them holds of the engine as well.

pub mod around;
pub mod cancel;
pub mod codes;
pub mod data;
pub mod download;
pub mod exchange;
pub mod header;
pub mod kept;
pub mod line;
pub mod list;
pub mod messages;
pub mod offer;
pub mod pieces;
pub mod programs;
pub mod replies;
pub mod session;
pub mod settled;
pub mod texts;
pub mod transfer;
pub mod upload;
pub mod views;
