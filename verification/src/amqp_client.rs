//! The delivery handler for one bus subscription: it forwards each
//! `(topic, payload)` event it is handed into the channel that feeds the
//! merge loop.  Opening the subscription itself is bus I/O and lives
//! outside the crate.

use vstd::prelude::*;

verus! {

#[verifier::external_type_specification]
#[verifier::external_body]
#[verifier::reject_recursive_types(T)]
pub struct ExSender<T>(std::sync::mpsc::Sender<T>);

/// Forwards every delivery of one bus subscription into a channel.
pub struct Handler {
    tx: std::sync::mpsc::Sender<(String, Vec<u8>)>,
}

impl Handler {
    pub fn new(tx: std::sync::mpsc::Sender<(String, Vec<u8>)>) -> Handler {
        Handler { tx }
    }

    /// Relies on `std::sync::mpsc::Sender::send`: hands one delivery —
    /// its routing key and body — to the consuming side of the channel;
    /// returns false when the receiving half has disconnected.
    #[verifier::external_body]
    pub fn handle_delivery(&self, routing_key: String, body: Vec<u8>) -> bool {
        self.tx.send((routing_key, body)).is_ok()
    }
}

} // verus!
