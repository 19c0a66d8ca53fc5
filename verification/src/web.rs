//! The liveness probe.
//!
//! The one route besides shortening and resolving: a health check that
//! always answers `200 OK` with a fixed payload.

use vstd::prelude::*;

verus! {

/// The controller behind the health route.
pub struct HealthController {}

impl HealthController {
    /// The status code and body of the health probe response.
    pub fn health_controller(&self) -> (r: (u16, String))
        ensures
            r.0 == 200,
            r.1@ == "It's ALIVE!!!"@,
    {
        (200, "It's ALIVE!!!".to_owned())
    }
}

} // verus!
