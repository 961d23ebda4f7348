//! Settings of the socket-writer collector: where events are read
//! from, where they are sent, and how often each is repeated.

use vstd::prelude::*;

verus! {

/// The collector's input/output settings.
#[derive(Debug, PartialEq)]
pub struct Io {
    /// The folder events are read from, as JSON files.
    pub json_events_path: String,
    /// The Unix socket path outgoing events are written to.
    pub uds_path: String,
    /// How many times each event is sent.
    pub repeat_send: usize,
}

impl Default for Io {
    /// The stock paths and repeat count.
    fn default() -> (r: Io)
        ensures
            r.json_events_path@ == "./events"@,
            r.uds_path@ == "/var/run/tornado/tornado.sock"@,
            r.repeat_send == 1000usize,
    {
        Io {
            json_events_path: "./events".to_owned(),
            uds_path: "/var/run/tornado/tornado.sock".to_owned(),
            repeat_send: 1000,
        }
    }
}

} // verus!
