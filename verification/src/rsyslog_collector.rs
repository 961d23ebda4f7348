//! Settings of the syslog collector: where outgoing events are
//! written.

use vstd::prelude::*;

verus! {

/// The collector's input/output settings.
#[derive(Debug, PartialEq)]
pub struct Io {
    /// The Unix socket path outgoing events are written to.
    pub uds_path: String,
}

impl Default for Io {
    /// The stock socket path.
    fn default() -> (r: Io)
        ensures
            r.uds_path@ == "/var/run/tornado/tornado.sock"@,
    {
        Io { uds_path: "/var/run/tornado/tornado.sock".to_owned() }
    }
}

} // verus!
