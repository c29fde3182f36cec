//! Verified pieces of small network programs: taking URLs apart, building HTTP requests
//! and splitting responses, describing DNS messages, preparing DNS queries, and the
//! replies of upper-casing echo servers. The programs themselves, which open sockets and
//! read the terminal, use these pieces; the pieces do no I/O.
use vstd::prelude::*;

pub mod text;
pub mod url;
pub mod request;
pub mod message;
pub mod response;
pub mod dns;
pub mod dns_walk;
pub mod dns_header;
pub mod echo;
pub mod query;

verus! {

} // verus!
