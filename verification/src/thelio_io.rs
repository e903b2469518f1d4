//! Client state for the optional Thelio IO fan service.
//!
//! The probing itself (environment toggle, bus lookup) happens outside
//! the library; the client records its outcome and answers availability
//! questions from those plain values.

use vstd::prelude::*;

verus! {

/// Connection state toward the Thelio IO service.  When the integration
/// is disabled or the service missing, every operation is a no-op.
pub struct ThelioIoClient {
    enabled: bool,
    service_name: String,
    is_available: bool,
}

impl ThelioIoClient {
    /// Whether the integration was enabled.
    pub closed spec fn spec_enabled(&self) -> bool {
        self.enabled
    }

    /// Whether the service answered the presence probe.
    pub closed spec fn spec_probed_available(&self) -> bool {
        self.is_available
    }

    /// The bus name the probe was made against.
    pub closed spec fn spec_service_name(&self) -> Seq<char> {
        self.service_name@
    }

    /// Records the probe's outcome: whether the integration is enabled
    /// and whether the named service answered.  A disabled client never
    /// counts as available, whatever the probe said.
    pub fn new(enabled: bool, service_name: String, service_available: bool) -> (c: ThelioIoClient)
        ensures
            c.spec_enabled() == enabled,
            c.spec_service_name() == service_name@,
            c.spec_probed_available() == (enabled && service_available),
    {
        ThelioIoClient { enabled, service_name, is_available: enabled && service_available }
    }

    /// True when the client is enabled and the service appears present.
    pub fn available(&self) -> (r: bool)
        ensures
            r == (self.spec_enabled() && self.spec_probed_available()),
    {
        self.enabled && self.is_available
    }
}

} // verus!
