//! The reporter registry: a set-once dispatch point that routes emitted
//! metrics to a pluggable backend, and the guard that closes the backend.
use vstd::prelude::*;

use crate::error::ReporterError;
use crate::pairs::pairs_map;

verus! {

/// A quantitative measurement on its way from the emitter to a backend.
///
/// The value is kept as its IEEE-754 bit pattern. The dimensions are
/// key/value tags; a later pair for a key overrides an earlier one.
#[derive(Debug)]
pub struct Metric {
    pub name: String,
    pub value_bits: u64,
    pub timestamp: u64,
    pub dimensions: Vec<(String, String)>,
}

impl Metric {
    /// The dimensions, read as a map.
    pub open spec fn dims(&self) -> Map<Seq<char>, Seq<char>> {
        pairs_map(self.dimensions@)
    }

    /// Assembles a metric from its name, value, time and tag pairs.
    pub fn new(name: &str, value_bits: u64, timestamp: u64, dimensions: Vec<(String, String)>) -> (r:
        Metric)
        ensures
            r.name@ == name@,
            r.value_bits == value_bits,
            r.timestamp == timestamp,
            r.dimensions@ == dimensions@,
            r.dims() == pairs_map(dimensions@),
    {
        Metric { name: name.to_owned(), value_bits, timestamp, dimensions }
    }
}

/// A destination for metrics. `report` receives each delivered metric;
/// `close` flushes whatever the backend buffers, and does nothing unless a
/// backend has something to flush.
pub trait Reporter {
    fn report(&self, metric: Metric);

    fn close(&mut self) {
    }
}

/// Where the registry stands in its life: no backend yet, a live backend, or
/// a backend that has been closed for good.
#[derive(Debug, Clone, Copy, PartialEq, Eq, Structural)]
pub enum Lifecycle {
    Unset,
    Live,
    Closed,
}

/// Whether a registration is accepted in state `s`.
pub open spec fn accepts_registration(s: Lifecycle) -> bool {
    s == Lifecycle::Unset
}

/// The state after a registration attempt in state `s`.
pub open spec fn after_register(s: Lifecycle) -> Lifecycle {
    if s == Lifecycle::Unset {
        Lifecycle::Live
    } else {
        s
    }
}

/// Whether an emitted metric reaches the backend in state `s`.
pub open spec fn delivers(s: Lifecycle) -> bool {
    s == Lifecycle::Live
}

/// Whether a close in state `s` runs the backend's `close`.
pub open spec fn close_runs(s: Lifecycle) -> bool {
    s == Lifecycle::Live
}

/// The state after a close in state `s`.
pub open spec fn after_close(s: Lifecycle) -> Lifecycle {
    if s == Lifecycle::Live {
        Lifecycle::Closed
    } else {
        s
    }
}

/// How many times the backend's `close` runs over `n` successive closes
/// from state `s`.
pub open spec fn closes_over(s: Lifecycle, n: nat) -> nat
    decreases n,
{
    if n == 0 {
        0
    } else {
        (if close_runs(s) {
            1nat
        } else {
            0nat
        }) + closes_over(after_close(s), (n - 1) as nat)
    }
}

/// Registration happens once: a fresh registry accepts a backend, and after
/// any registration attempt, in any state, the next one is refused. Before a
/// registration nothing is delivered; right after one, every emit is.
pub proof fn lemma_register_once(s: Lifecycle)
    ensures
        accepts_registration(Lifecycle::Unset),
        !accepts_registration(after_register(s)),
        !delivers(Lifecycle::Unset),
        delivers(after_register(Lifecycle::Unset)),
{
}

/// Closing is exactly once: from a live registry, any number of closes (at
/// least one) runs the backend's `close` exactly once, from any state at
/// most once, and nothing is delivered after a close.
pub proof fn lemma_close_once(s: Lifecycle, n: nat)
    ensures
        n >= 1 ==> closes_over(Lifecycle::Live, n) == 1,
        closes_over(s, n) <= 1,
        !delivers(after_close(s)),
    decreases n,
{
    if n >= 1 {
        lemma_close_once(after_close(s), (n - 1) as nat);
        lemma_close_once(Lifecycle::Closed, (n - 1) as nat);
        lemma_closed_stays(n);
    }
}

proof fn lemma_closed_stays(n: nat)
    ensures
        closes_over(Lifecycle::Closed, n) == 0,
        closes_over(Lifecycle::Unset, n) == 0,
    decreases n,
{
    if n > 0 {
        lemma_closed_stays((n - 1) as nat);
    }
}

/// The dispatch point. It accepts one backend in its lifetime and delivers
/// metrics to it only while it is live.
pub struct Registry<R: Reporter> {
    backend: Option<R>,
    state: Lifecycle,
}

/// The token of a successful registration. Only `set_reporter` makes one.
/// Releasing it closes the backend of the registry it is handed (which the
/// caller keeps to the one it came from); the caller's scope guard releases
/// it on every way out of the scope.
#[derive(Debug)]
pub struct ReporterGuard {
    _token: (),
}

impl<R: Reporter> Registry<R> {
    /// The lifecycle state.
    pub closed spec fn state(&self) -> Lifecycle {
        self.state
    }

    /// A backend is held exactly when one was registered.
    pub closed spec fn wf(&self) -> bool {
        self.backend is Some <==> self.state != Lifecycle::Unset
    }

    /// A registry with no backend.
    pub fn new() -> (r: Self)
        ensures
            r.wf(),
            r.state() == Lifecycle::Unset,
    {
        Registry { backend: None, state: Lifecycle::Unset }
    }

    /// The lifecycle state.
    pub fn lifecycle(&self) -> (r: Lifecycle)
        ensures
            r == self.state(),
    {
        self.state
    }

    /// Registers the backend. Only the first registration in the registry's
    /// lifetime succeeds; any later one leaves the registry as it was.
    pub fn set_reporter(&mut self, reporter: R) -> (r: Result<ReporterGuard, ReporterError>)
        requires
            old(self).wf(),
        ensures
            final(self).wf(),
            r is Ok <==> accepts_registration(old(self).state()),
            r is Err ==> r->Err_0 == ReporterError::AlreadyInitialized,
            r is Err ==> *final(self) == *old(self),
            final(self).state() == after_register(old(self).state()),
    {
        match self.state {
            Lifecycle::Unset => {
                self.backend = Some(reporter);
                self.state = Lifecycle::Live;
                Ok(ReporterGuard { _token: () })
            },
            _ => Err(ReporterError::AlreadyInitialized),
        }
    }

    /// Hands a metric to the backend while it is live, once; otherwise drops
    /// it. Returns whether it was delivered.
    pub fn emit(&self, metric: Metric) -> (delivered: bool)
        requires
            self.wf(),
        ensures
            delivered == delivers(self.state()),
    {
        match self.state {
            Lifecycle::Live => {
                match &self.backend {
                    Some(b) => {
                        b.report(metric);
                        true
                    },
                    None => false,
                }
            },
            _ => false,
        }
    }

    /// Closes a live backend, once: a later call does nothing. Returns
    /// whether the backend's `close` ran.
    pub fn close(&mut self) -> (closed: bool)
        requires
            old(self).wf(),
        ensures
            final(self).wf(),
            closed == close_runs(old(self).state()),
            final(self).state() == after_close(old(self).state()),
    {
        match self.state {
            Lifecycle::Live => {
                match &mut self.backend {
                    Some(b) => {
                        b.close();
                    },
                    None => {},
                }
                self.state = Lifecycle::Closed;
                true
            },
            _ => false,
        }
    }
}

impl ReporterGuard {
    /// Releases the registration: closes the registry's backend if it is
    /// still live. Consuming the guard makes a second release impossible.
    pub fn release<R: Reporter>(self, registry: &mut Registry<R>) -> (closed: bool)
        requires
            old(registry).wf(),
        ensures
            final(registry).wf(),
            closed == close_runs(old(registry).state()),
            final(registry).state() == after_close(old(registry).state()),
    {
        registry.close()
    }
}

/// Stamps a name, value and tags with the given time and emits the metric.
/// Returns whether a live backend received it.
pub fn metric<R: Reporter>(
    registry: &Registry<R>,
    name: &str,
    value_bits: u64,
    timestamp: u64,
    dimensions: Vec<(String, String)>,
) -> (delivered: bool)
    requires
        registry.wf(),
    ensures
        delivered == delivers(registry.state()),
{
    registry.emit(Metric::new(name, value_bits, timestamp, dimensions))
}

} // verus!
