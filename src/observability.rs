//! Choice of the observability sink from configuration.

use vstd::prelude::*;
use crate::text::text_eq;

verus! {

/// The configured observability backend, by name.
pub struct ObservabilityConfig {
    pub backend: String,
}

/// The sinks that events can go to.
#[derive(Debug, Clone, Copy, PartialEq, Eq, Structural)]
pub enum Observer {
    /// Events are written to the log.
    Log,
    /// Events are dropped.
    Noop,
}

impl Observer {
    pub open spec fn name_spec(&self) -> Seq<char> {
        match self {
            Observer::Log => "log"@,
            Observer::Noop => "noop"@,
        }
    }

    /// The sink's name: `"log"` or `"noop"`.
    pub fn name(&self) -> (r: &'static str)
        ensures
            r@ == self.name_spec(),
    {
        match self {
            Observer::Log => "log",
            Observer::Noop => "noop",
        }
    }
}

/// `"log"` selects the log sink; `"none"`, `"noop"` and every other name
/// select the sink that drops events.
pub fn create_observer(config: &ObservabilityConfig) -> (r: Observer)
    ensures
        r == (if config.backend@ == "log"@ { Observer::Log } else { Observer::Noop }),
{
    if text_eq(config.backend.as_str(), "log") {
        Observer::Log
    } else {
        Observer::Noop
    }
}

} // verus!
