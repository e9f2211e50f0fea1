use vstd::prelude::*;

verus! {

/// Process-wide configuration, loaded once at start and passed explicitly
/// into each component; the core holds no ambient global state.
#[derive(Debug, Clone)]
pub struct Config {
    pub database_url: String,
    pub database_max_connections: u32,
    /// The shared symmetric signing secret; configured once, never rotated
    /// at runtime.
    pub jwt_secret: String,
    /// Token time-to-live, in hours.
    pub jwt_expiration_hours: i64,
    pub cookie_domain: String,
    pub cookie_secure: bool,
}

impl Config {
    /// A configuration that can mint tokens: a positive, bounded lifetime.
    /// The bound keeps `now + ttl` within `i64` for any realistic clock.
    pub open spec fn wf(self) -> bool {
        0 < self.jwt_expiration_hours <= 0x10000000
    }

    /// The token lifetime in seconds.
    pub open spec fn spec_ttl_seconds(self) -> int {
        self.jwt_expiration_hours * 3600
    }

    /// The token lifetime in seconds.
    pub fn ttl_seconds(&self) -> (r: i64)
        requires
            self.wf(),
        ensures
            r == self.spec_ttl_seconds(),
            0 < r <= 0x10000000 * 3600,
    {
        self.jwt_expiration_hours * 3600
    }
}

} // verus!
