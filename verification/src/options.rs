//! How the server is set up.
use vstd::prelude::*;

verus! {

/// The server's options.
#[derive(Debug)]
pub struct Options {
    /// the port to bind the server to
    pub port: u16,
    /// the maximum request timeout, in seconds
    pub request_timeout: Option<u64>,
}

impl Default for Options {
    /// Port 3000 and no limit on the duration of a request.
    fn default() -> (options: Self)
        ensures
            options.port == 3000,
            options.request_timeout == None::<u64>,
    {
        Options { port: 3000, request_timeout: None }
    }
}

} // verus!
