//! An indexing crawler for Gopher servers.
//!
//! Starting from one origin server and the empty selector, the crawler goes
//! depth first through every directory of the origin, fetches every text
//! and binary file it meets, tries every external server once, and keeps
//! count of what it finds.
//!
//! The library decides; it never touches a socket, a file or the terminal.
//!
//! * [`gopher`] is the wire codec: one request/response cycle as a sequence
//!   of steps, the framing of requests, the end-of-menu line, and the parser
//!   that turns a menu into records.
//! * [`crawler`] is the traversal controller: what has been visited, what
//!   is waiting, the tallies of files and their extremes, the ledger of
//!   invalid references, and the report.
//! * [`order`] puts lines in alphabetical order.
//! * [`journal`] writes the lines that tell what the crawler is doing.
//! * [`text`] holds the character-level building blocks.

pub mod crawler;
pub mod gopher;
pub mod journal;
pub mod order;
pub mod text;
