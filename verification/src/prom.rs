//! Trusted bindings to the prometheus metrics registry: the persistent
//! exported metric objects (gauges and histograms) live there, are individually
//! thread-safe, and are mutated through shared references; nothing about their
//! stored values can be stated here, so every contract-relevant computation is
//! done in verified code before the values are pushed.

use vstd::prelude::*;

verus! {

#[verifier::external_type_specification]
#[verifier::external_body]
pub struct ExHistogram(prometheus::Histogram);

#[verifier::external_type_specification]
#[verifier::external_body]
pub struct ExRegistry(prometheus::Registry);

#[verifier::external_type_specification]
#[verifier::external_body]
pub struct ExError(prometheus::Error);

/// Relies on `prometheus::Registry::new`: a fresh registry with nothing
/// registered.
#[verifier::external_body]
pub(crate) fn new_registry() -> prometheus::Registry {
    prometheus::Registry::new()
}

/// An exported integer gauge. It wraps `prometheus::IntGauge`, whose type
/// parameter (the atomic cell behind it) Verus refuses to declare, so the
/// handle is opaque and each method is a trusted binding to one gauge call.
#[verifier::external_body]
pub struct GaugeHandle {
    inner: prometheus::IntGauge,
}

impl GaugeHandle {
    /// Relies on `prometheus::IntGauge::new`: a gauge named `name`, starting
    /// at zero; fails when the name or help text is not accepted.
    #[verifier::external_body]
    pub fn new(name: &str, help: &str) -> Result<GaugeHandle, prometheus::Error> {
        Ok(GaugeHandle { inner: prometheus::IntGauge::new(name, help)? })
    }

    /// Relies on `prometheus::Registry::register`: makes the gauge visible to
    /// scrapes of this registry (a clone of a gauge shares its value); fails
    /// on a duplicate registration.
    #[verifier::external_body]
    pub fn register(&self, r: &prometheus::Registry) -> Result<(), prometheus::Error> {
        r.register(Box::new(self.inner.clone()))
    }

    /// Relies on `prometheus::core::GenericGauge::set`: stores the value in
    /// the gauge's thread-safe cell. Values beyond the signed range wrap.
    #[verifier::external_body]
    pub fn set(&self, v: usize) {
        self.inner.set(v as i64)
    }
}

/// Relies on `prometheus::Histogram::with_opts`: a histogram named `name` with
/// the given upper bucket bounds (converted to floating point milliseconds);
/// fails when the name, help text or bucket list is not accepted.
#[verifier::external_body]
pub(crate) fn new_histogram(name: &str, help: &str, buckets_ms: &Vec<u64>) -> Result<
    prometheus::Histogram,
    prometheus::Error,
> {
    let bounds = buckets_ms.iter().map(|b| *b as _).collect();
    prometheus::Histogram::with_opts(prometheus::HistogramOpts::new(name, help).buckets(bounds))
}

/// Relies on `prometheus::Registry::register`, as for gauges.
#[verifier::external_body]
pub(crate) fn register_histogram(r: &prometheus::Registry, h: &prometheus::Histogram) -> Result<
    (),
    prometheus::Error,
> {
    r.register(Box::new(h.clone()))
}

/// Relies on `prometheus::Histogram::observe`: records one observation of
/// `ms` milliseconds.
#[verifier::external_body]
pub(crate) fn histogram_observe_ms(h: &prometheus::Histogram, ms: u64) {
    h.observe(ms as _)
}

} // verus!
