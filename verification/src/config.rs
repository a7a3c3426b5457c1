//! Startup configuration: the list of bus endpoint URLs (which fixes the
//! cluster size and each node's identity by position) and the scrape
//! timeout.  Loading the file itself is I/O and stays outside the crate;
//! the values arrive here as plain data.

use vstd::prelude::*;

verus! {

/// The configuration the process starts with.
pub struct Config {
    /// One bus endpoint URL per cluster node; the position of an URL in
    /// this list is the node's identity for the tracing pipeline.
    pub amqp_urls: Vec<String>,
    /// Scrape timeout in seconds.
    pub duration: u64,
}

impl Config {
    /// The cluster size: one configured bus endpoint per node.
    pub fn node_count(&self) -> (n: usize)
        ensures
            n == self.amqp_urls@.len(),
    {
        self.amqp_urls.len()
    }
}

} // verus!
