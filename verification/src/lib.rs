//! Verified core of a one-way bridge that forwards PostgreSQL `NOTIFY`
//! payloads to an AMQP broker.
//!
//! The library holds the logic of the bridge: the bridge-channel
//! configuration language, the notification payload parser, the
//! classification of AMQP entities, the envelope construction with its
//! routing rule, the per-binding worker state machine, and the reconnect
//! backoff schedule.  The surrounding process (environment loading, the
//! PostgreSQL connections and the AMQP sessions themselves) is ordinary
//! I/O and lives outside the library.

pub mod config;
pub mod payload;
pub mod text;
pub mod worker;

use vstd::prelude::*;

verus! {

/// Counter for AMQP channel identifiers, one fresh id per `inc` call.
pub struct ChannelCounter {
    pub counter: u16,
}

impl ChannelCounter {
    pub fn new() -> (r: ChannelCounter)
        ensures
            r.counter == 0,
    {
        ChannelCounter { counter: 0 }
    }

    /// The next channel identifier; wraps around at the 16-bit limit.
    pub fn inc(&mut self) -> (r: u16)
        ensures
            final(self).counter == if old(self).counter == u16::MAX {
                0u16
            } else {
                (old(self).counter + 1) as u16
            },
            r == final(self).counter,
    {
        if self.counter == u16::MAX {
            self.counter = 0;
        } else {
            self.counter = self.counter + 1;
        }
        self.counter
    }
}

} // verus!
