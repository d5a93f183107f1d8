//! The logic of a device that shows a PDF in step with a remote command server.
//!
//! The device holds a socket to the server, fetches the files it is told about, keeps track of the
//! PDF on show, and answers page and file requests over HTTP. What is here decides; reading the
//! disk, the clock's ticks and the network is the caller's part.
pub mod calendar;
pub mod device;
pub mod encoding;
pub mod event;
pub mod http;
pub mod link;
pub mod message;
pub mod path;
pub mod pdf;
pub mod stamp;
pub mod sync;
pub mod text;
