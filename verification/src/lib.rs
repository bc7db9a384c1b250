//! A minimal HTTP/1.1 request pipeline: request parsing, path routing and
//! response formatting, with the decisions of the connection reader and of the
//! pool workers as small state machines.

pub mod text;
pub mod request;
pub mod response;
pub mod router;
pub mod reader;
pub mod worker;
pub mod laws;
