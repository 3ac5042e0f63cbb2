//! The scoped-state collaborator: a service container whose per-request
//! scoped instances must be cleared after each dispatched request.
//!
//! The container is owned by the host and passed explicitly; the transport
//! layer that drives the host decides concurrency, so exclusive access is
//! enforced here by `&mut` borrows rather than by a process-wide lock.

use vstd::prelude::*;

verus! {

/// An explicitly constructed service container. `services` are the
/// registrations made at startup; `scoped_instances` is the per-request
/// state that dispatch must clear; `cleared_count` records how many times
/// the clear operation has run.
pub struct ServiceProvider {
    pub services: Vec<String>,
    pub scoped_instances: Vec<String>,
    pub cleared_count: u64,
}

impl ServiceProvider {
    /// An empty container: nothing registered, nothing scoped, never
    /// cleared.
    pub fn new() -> (r: ServiceProvider)
        ensures
            r.services@ == Seq::<String>::empty(),
            r.scoped_instances@ == Seq::<String>::empty(),
            r.cleared_count == 0,
    {
        ServiceProvider { services: Vec::new(), scoped_instances: Vec::new(), cleared_count: 0 }
    }

    /// Registers a service at startup.
    pub fn add_service(&mut self, name: String)
        ensures
            final(self).services@ == old(self).services@.push(name),
            final(self).scoped_instances == old(self).scoped_instances,
            final(self).cleared_count == old(self).cleared_count,
    {
        self.services.push(name);
    }

    /// Records a request-scoped instance; it lives until the next clear.
    pub fn add_scoped_instance(&mut self, name: String)
        ensures
            final(self).scoped_instances@ == old(self).scoped_instances@.push(name),
            final(self).services == old(self).services,
            final(self).cleared_count == old(self).cleared_count,
    {
        self.scoped_instances.push(name);
    }

    /// Disposes every request-scoped instance. Idempotent with respect to
    /// the scoped state: the container ends empty whatever it held.
    pub fn clear_scoped_instances(&mut self)
        requires
            old(self).cleared_count < u64::MAX,
        ensures
            final(self).scoped_instances@ == Seq::<String>::empty(),
            final(self).services == old(self).services,
            final(self).cleared_count == old(self).cleared_count + 1,
    {
        self.scoped_instances.clear();
        self.cleared_count = self.cleared_count + 1;
        proof {
            assert(self.scoped_instances@ =~= Seq::<String>::empty());
        }
    }
}

/// Startup configuration supplied by the application: it registers the
/// services the handlers will use. Implementations are user code and carry
/// no contract.
pub trait IStartup {
    fn configure_services(provider: &mut ServiceProvider);
}

} // verus!
