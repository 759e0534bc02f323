use vstd::prelude::*;

verus! {

/// Holds governor's direct rate limiter. Its type's generics carry trait
/// bounds of governor's own, which cannot be declared here, so the handle
/// stays opaque and only the wrappers below touch it.
#[verifier::external_body]
pub struct Limiter {
    inner: std::sync::Arc<governor::DefaultDirectRateLimiter>,
}

/// Relies on governor's Quota::per_second, Quota::allow_burst and
/// RateLimiter::direct: builds a token bucket that refills `rps` tokens per
/// second and holds at most `burst` tokens. The two counts are nonzero, so
/// the NonZeroU32 constructions cannot fail.
#[verifier::external_body]
fn gov_new(rps: u32, burst: u32) -> (r: Limiter)
    requires
        rps >= 1,
        burst >= 1,
{
    Limiter {
        inner: std::sync::Arc::new(
            governor::RateLimiter::direct(
                governor::Quota::per_second(core::num::NonZeroU32::new(rps).unwrap()).allow_burst(
                    core::num::NonZeroU32::new(burst).unwrap(),
                ),
            ),
        ),
    }
}

/// Relies on governor's RateLimiter::check: whether the bucket released one
/// token just now. The outcome depends on the clock, so nothing more is
/// promised of it.
#[verifier::external_body]
fn gov_check(lim: &Limiter) -> bool {
    lim.inner.check().is_ok()
}

/// Process-wide token bucket: `rps` tokens per second with depth `burst`;
/// a zero rate disables throttling altogether.
pub struct RateLimit {
    pub limiter: Option<Limiter>,
    pub rps: u32,
    pub burst: u32,
}

impl RateLimit {
    /// Whether the limiter throttles at all.
    pub open spec fn enabled(self) -> bool {
        self.limiter is Some
    }

    /// Limiter sizing is consistent: throttling exactly when a rate is set,
    /// and then with a burst depth of at least one.
    pub open spec fn wf(self) -> bool {
        &&& self.enabled() <==> self.rps >= 1
        &&& self.enabled() ==> self.burst >= 1
    }

    /// A limiter that never throttles.
    pub fn disabled() -> (r: Self)
        ensures
            r.wf(),
            !r.enabled(),
            r.rps == 0,
    {
        RateLimit { limiter: None, rps: 0, burst: 0 }
    }

    /// A process-wide limiter of `rps` requests per second with a burst
    /// allowance; zero `rps` disables throttling, and the burst depth is
    /// clamped to at least one token.
    pub fn per_second(rps: u32, burst: u32) -> (r: Self)
        ensures
            r.wf(),
            r.rps == rps,
            rps == 0 ==> !r.enabled(),
            rps >= 1 ==> r.enabled() && r.burst == (if burst >= 1 {
                burst
            } else {
                1
            }),
    {
        if rps == 0 {
            return RateLimit::disabled();
        }
        let burst = if burst >= 1 {
            burst
        } else {
            1
        };
        RateLimit { limiter: Some(gov_new(rps, burst)), rps, burst }
    }

    /// Asks the bucket for one token. A disabled limiter always grants it at
    /// once, so a caller loops (briefly sleeping) only while this is false.
    pub fn try_acquire(&self) -> (granted: bool)
        ensures
            !self.enabled() ==> granted,
    {
        match &self.limiter {
            Some(lim) => gov_check(lim),
            None => true,
        }
    }
}

} // verus!
