//! Messages and lifecycle states of messaging channels.

use vstd::prelude::*;

verus! {

/// A message received from or sent to a channel.
#[derive(Debug, Clone)]
pub struct ChannelMessage {
    pub id: String,
    pub sender: String,
    pub content: String,
    pub channel: String,
    pub timestamp: u64,
}

/// Lifecycle of a channel connection: active, suspended (for example after
/// an idle timeout; it can be resumed), destroyed (resources released).
#[derive(Debug, Clone, Copy, PartialEq, Eq, Structural)]
pub enum ChannelState {
    Active,
    Suspended,
    Destroyed,
}

impl Default for ChannelState {
    /// A new channel is active.
    fn default() -> (r: Self)
        ensures
            r == ChannelState::Active,
    {
        ChannelState::Active
    }
}

} // verus!
