//! The logic of a terminal manager: ZMODEM file transfer on the byte stream of
//! a pty, the routing of what it causes, and the choice of programs and
//! settings.
//!
//! [`engine::Zm`] is the ZMODEM engine. What it does is stated over
//! [`protocol`], a transition system on mathematical values; [`frame`],
//! [`decode`], [`crc`], [`hex`], [`bytes`] and [`text`] hold the parts that
//! headers, data and file offers are made of. [`round_trip`] and [`laws`] say
//! what holds of all of it together. [`route`] turns the engine's events into
//! work on the pty and messages to the user interface; [`launch`],
//! [`command`] and [`config`] decide what is run and where settings live.

pub mod bytes;
pub mod command;
pub mod config;
pub mod crc;
pub mod decode;
pub mod engine;
pub mod event;
pub mod frame;
pub mod hex;
pub mod launch;
pub mod laws;
pub mod protocol;
pub mod round_trip;
pub mod route;
pub mod text;
