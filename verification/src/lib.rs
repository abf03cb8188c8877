//! Core logic of a retrieval-augmented agent server: configuration, the
//! knowledge-base indexing rules, the document store's row layout and the
//! knowledge tool's answers.
pub mod config;
pub mod digest;
pub mod mcp;
pub mod pattern;
pub mod rag;
pub mod storage;
pub mod text;
pub mod tools;
pub mod update;

use vstd::prelude::*;

verus! {

/// The MCP server front: the address it listens on.
pub struct Server {
    addr: String,
}

impl Server {
    /// The address given to `new`.
    pub closed spec fn spec_addr(&self) -> Seq<char> {
        self.addr@
    }

    /// A server that will listen on `addr`.
    pub fn new(addr: String) -> (s: Server)
        ensures
            s.spec_addr() == addr@,
    {
        Server { addr: addr }
    }

    /// The address the server listens on.
    pub fn addr(&self) -> (a: &str)
        ensures
            a@ == self.spec_addr(),
    {
        self.addr.as_str()
    }
}

} // verus!
