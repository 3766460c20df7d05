//! Verified cores of four small tools.
//!
//! * A chat relay: a broadcast [`bus`] that many clients read through
//!   cursors of their own, the [`session`] that ties one client's two duties
//!   together, the [`listener`] that hands out sessions and shuts the relay
//!   down, and in [`delivery`] what the bus owes its subscribers.
//! * A Huffman coder: counting symbols ([`tally`]), building the code tree
//!   ([`huffman`]), reading codes off it and coding with them ([`codes`]), and
//!   all of it in one call ([`pack`]).
//! * A task list and its commands ([`tasks`]).
//! * A reader for the pages of a book catalogue ([`scrape`]).
//!
//! Nothing here does I/O. Sockets, files and the command line belong to the
//! programs that use the library.

pub mod bus;
pub mod delivery;
pub mod session;
pub mod listener;
pub mod huffman;
pub mod codes;
pub mod tally;
pub mod pack;
pub mod tasks;
pub mod scrape;
