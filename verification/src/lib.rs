//! A small key-value service over a line-oriented wire format.
//!
//! The server keeps a map from text keys to byte strings and answers `GET`
//! and `SET` requests. The client turns typed lines into requests, sends them
//! over one connection, one at a time, and prints the answers.
//!
//! This library holds everything that is decided between two socket
//! operations, and proves it:
//!
//! - [`frame`]: the frames that are exchanged, and the lines they may hold;
//! - [`wire`]: how frames are spelled in bytes, as mathematics;
//! - [`codec`]: encoding and decoding, proved against [`wire`];
//! - [`framing`]: what holds of the wire format, such as that every frame is
//!   read back from its own bytes and from nothing less;
//! - [`connection`]: the bytes received and not yet read as frames;
//! - [`command`]: the requests that frames make;
//! - [`store`]: the map that the requests act on;
//! - [`server`]: what a connection handler does for each event;
//! - [`client`]: the actor that owns the client's connection;
//! - [`session`]: requests and answers in order, from end to end;
//! - [`console`]: the lines that are typed and the lines that are printed;
//! - [`decimal`] and [`text`]: numbers and texts as bytes.
//!
//! Sockets, tasks, channels and locks are the caller's. The caller reads and
//! writes, and asks the library what to do with what it read.

pub mod client;
pub mod codec;
pub mod command;
pub mod connection;
pub mod console;
pub mod decimal;
pub mod frame;
pub mod framing;
pub mod server;
pub mod session;
pub mod store;
pub mod text;
pub mod wire;
