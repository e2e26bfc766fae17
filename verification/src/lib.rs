//! The protocol core of a program that draws text art in an IRC channel
//! through several connections at once, so that the lines arrive in order.
//!
//! Nothing here reads or writes. A caller owns the connections and carries
//! out what the library decides:
//!
//! - [`text`] frames characters into lines and splits them;
//! - [`irc`] reads one line of the server;
//! - [`client`] keeps the state of one connection and says what to send and
//!   what to wait for;
//! - [`sequencer`] accepts commands and hands a payload's lines to the
//!   clients in turn;
//! - [`arguments`] holds the configuration of a run.

pub mod arguments;
pub mod client;
pub mod irc;
pub mod sequencer;
pub mod text;
