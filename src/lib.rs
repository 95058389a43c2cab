//! An HTTP echo service: the request-handling rules, verified.
//!
//! `echo` builds the reply that describes a request, with the header mapping
//! from `headers` and the text rules of `text`; `body` assembles a request
//! body from the chunks a server hands over; `cli` resolves where to listen.
pub mod body;
pub mod text;
pub mod headers;
pub mod echo;
pub mod cli;
