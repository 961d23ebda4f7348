//! Settings of the webhook collector: the server endpoint and the
//! connection to the engine.

use vstd::prelude::*;

verus! {

/// The webhook collector's own settings.
#[derive(Debug, PartialEq)]
pub struct WebhookCollectorConfig {
    /// The size of the internal message queue.
    pub message_queue_size: usize,
    /// The address the engine listens on.
    pub tornado_event_socket_ip: String,
    /// The port the engine listens on.
    pub tornado_event_socket_port: u16,
    /// The address this collector's server binds.
    pub server_bind_address: String,
    /// The port this collector's server binds.
    pub server_port: u32,
}

impl WebhookCollectorConfig {
    /// A configuration with the given endpoints.
    pub fn new(
        message_queue_size: usize,
        tornado_event_socket_ip: String,
        tornado_event_socket_port: u16,
        server_bind_address: String,
        server_port: u32,
    ) -> (r: WebhookCollectorConfig)
        ensures
            r.message_queue_size == message_queue_size,
            r.tornado_event_socket_ip == tornado_event_socket_ip,
            r.tornado_event_socket_port == tornado_event_socket_port,
            r.server_bind_address == server_bind_address,
            r.server_port == server_port,
    {
        WebhookCollectorConfig {
            message_queue_size,
            tornado_event_socket_ip,
            tornado_event_socket_port,
            server_bind_address,
            server_port,
        }
    }
}

} // verus!
