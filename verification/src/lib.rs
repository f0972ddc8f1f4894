//! Asks a `ty` language server where Python names are defined.
//!
//! The server is a process of its own, and what goes to it and comes from it are bytes. This crate
//! holds everything about the conversation that is a matter of computing: the framing of the
//! messages ([`framing`]), what they say and what the answers mean ([`resolver`]), the locations in
//! an answer ([`locations`]), the positions and the URIs that the messages speak of ([`position`],
//! [`uri`]), which program to run ([`backend`]), and how to end when nothing can be printed any
//! more ([`termination`]). Processes, pipes, clocks and the file system are left to the program.

pub mod backend;
pub mod framing;
pub mod json;
pub mod locations;
pub mod position;
pub mod resolver;
pub mod termination;
pub mod text;
pub mod uri;
