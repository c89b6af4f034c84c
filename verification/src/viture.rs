//! The deterministic physical transport of the glasses adapters: a finite,
//! bounded sample queue with explicit start, reconnect and cleanup.
use vstd::prelude::*;

verus! {

/// Observable bounded-queue accounting for a physical session.
#[derive(Clone, Copy, Debug, PartialEq, Eq, Structural)]
pub struct PhysicalTransportStats {
    /// Samples still queued for delivery.
    pub queued: usize,
    /// Samples dropped at the configured queue boundary.
    pub dropped: u64,
}

/// Why a physical session refused a request.
#[derive(Clone, Copy, Debug, PartialEq, Eq, Structural)]
pub enum VitureError {
    /// The session has not been started.
    Unsupported,
}

/// Commands of the glasses session contract; the report rates are those of
/// the SDK, of type `R`.
#[derive(Clone, Copy, Debug, PartialEq, Eq)]
pub enum PhysicalDeviceCommand<R> {
    /// Enable or disable IMU reports.
    ImuReports(bool),
    /// Select an IMU report rate.
    ImuRate(R),
    /// Enable or disable stereoscopic display mode.
    Display3d(bool),
}

/// A finite modeled transport over samples of type `T`.
#[derive(Clone, Debug)]
pub struct ModeledViturePort<T> {
    samples: Vec<T>,
    dropped: u64,
}

/// A connected modeled session. The samples it was given stay with it; the
/// queue is the part of them not yet delivered.
pub struct ModeledSession<T> {
    original: Vec<T>,
    next: usize,
    started: bool,
    dropped: u64,
}

impl<T: Clone> ModeledViturePort<T> {
    /// The samples the transport delivers on each connection.
    pub closed spec fn samples(&self) -> Seq<T> {
        self.samples@
    }

    /// The samples dropped at the queue boundary.
    pub closed spec fn dropped(&self) -> u64 {
        self.dropped
    }

    /// Builds a finite modeled transport.
    pub fn new(samples: Vec<T>) -> (r: Self)
        ensures
            r.samples() == samples@,
            r.dropped() == 0,
    {
        ModeledViturePort { samples, dropped: 0 }
    }

    /// Builds a modeled transport that keeps only the newest `capacity`
    /// samples and counts the ones it dropped.
    pub fn with_capacity(samples: Vec<T>, capacity: usize) -> (r: Self)
        ensures
            samples@.len() > capacity ==> r.samples() == samples@.subrange(
                samples@.len() - capacity,
                samples@.len() as int,
            ) && r.dropped() == samples@.len() - capacity,
            samples@.len() <= capacity ==> r.samples() == samples@ && r.dropped() == 0,
    {
        let mut samples = samples;
        let dropped = if samples.len() > capacity {
            samples.len() - capacity
        } else {
            0
        };
        if dropped != 0 {
            samples = samples.split_off(dropped);
        }
        ModeledViturePort { samples, dropped: dropped as u64 }
    }

    /// Connects an independently owned session over clones of the samples;
    /// it starts stopped, with every sample queued.
    pub fn connect(&self) -> (r: Result<ModeledSession<T>, VitureError>)
        ensures
            r matches Ok(s) && {
                &&& s.samples().len() == self.samples().len()
                &&& forall|i: int|
                    0 <= i < self.samples().len() ==> cloned::<T>(
                        self.samples()[i],
                        #[trigger] s.samples()[i],
                    )
                &&& s.queue() == s.samples()
                &&& !s.started()
                &&& s.dropped() == self.dropped()
            },
    {
        let original = self.samples.clone();
        let s = ModeledSession { original, next: 0, started: false, dropped: self.dropped };
        assert(s.queue() =~= s.samples());
        Ok(s)
    }
}

impl<T> ModeledSession<T> {
    #[verifier::type_invariant]
    spec fn cursor_in_range(&self) -> bool {
        self.next <= self.original.len()
    }
}

impl<T: Clone> ModeledSession<T> {
    /// The samples the session was connected with.
    pub closed spec fn samples(&self) -> Seq<T> {
        self.original@
    }

    /// The samples still queued for delivery, in order.
    pub closed spec fn queue(&self) -> Seq<T> {
        self.original@.subrange(self.next as int, self.original@.len() as int)
    }

    /// Whether device traffic is running.
    pub closed spec fn started(&self) -> bool {
        self.started
    }

    /// The samples dropped at the queue boundary.
    pub closed spec fn dropped(&self) -> u64 {
        self.dropped
    }

    /// Starts device traffic.
    pub fn start(&mut self) -> (r: Result<(), VitureError>)
        ensures
            r is Ok,
            final(self).started(),
            final(self).samples() == old(self).samples(),
            final(self).queue() == old(self).queue(),
            final(self).dropped() == old(self).dropped(),
    {
        proof {
            use_type_invariant(&*self);
        }
        self.started = true;
        Ok(())
    }

    /// Re-establishes the connection: the whole sample stream is queued
    /// again and traffic runs.
    pub fn reconnect(&mut self) -> (r: Result<(), VitureError>)
        ensures
            r is Ok,
            final(self).started(),
            final(self).samples() == old(self).samples(),
            final(self).queue() == old(self).samples(),
            final(self).dropped() == old(self).dropped(),
    {
        self.next = 0;
        self.started = true;
        assert(self.queue() =~= self.samples());
        Ok(())
    }

    /// Delivers the next queued sample (a clone of it), or nothing once the
    /// queue is empty; a session not started is refused.
    pub fn poll(&mut self) -> (r: Result<Option<T>, VitureError>)
        ensures
            final(self).samples() == old(self).samples(),
            final(self).started() == old(self).started(),
            final(self).dropped() == old(self).dropped(),
            !old(self).started() ==> r == Err::<Option<T>, VitureError>(VitureError::Unsupported)
                && final(self).queue() == old(self).queue(),
            old(self).started() && old(self).queue().len() == 0 ==> r == Ok::<Option<T>, VitureError>(
                None,
            ) && final(self).queue() == old(self).queue(),
            old(self).started() && old(self).queue().len() > 0 ==> (r matches Ok(Some(x)) && cloned::<
                T,
            >(old(self).queue()[0], x)) && final(self).queue() == old(self).queue().drop_first(),
    {
        proof {
            use_type_invariant(&*self);
        }
        if !self.started {
            return Err(VitureError::Unsupported);
        }
        if self.next < self.original.len() {
            let x = self.original[self.next].clone();
            let ghost q = self.queue();
            self.next = self.next + 1;
            assert(self.queue() =~= q.drop_first());
            Ok(Some(x))
        } else {
            Ok(None)
        }
    }

    /// Sends one command to the device; a session not started is refused.
    pub fn send<R>(&mut self, command: PhysicalDeviceCommand<R>) -> (r: Result<(), VitureError>)
        ensures
            *final(self) == *old(self),
            r is Ok <==> old(self).started(),
            r is Err ==> r == Err::<(), VitureError>(VitureError::Unsupported),
    {
        if !self.started {
            return Err(VitureError::Unsupported);
        }
        Ok(())
    }

    /// Stops traffic and drops whatever is still queued.
    pub fn close(&mut self) -> (r: Result<(), VitureError>)
        ensures
            r is Ok,
            !final(self).started(),
            final(self).samples() == old(self).samples(),
            final(self).queue().len() == 0,
            final(self).dropped() == old(self).dropped(),
    {
        proof {
            use_type_invariant(&*self);
        }
        self.started = false;
        self.next = self.original.len();
        Ok(())
    }

    /// Queue and drop accounting.
    pub fn stats(&self) -> (r: PhysicalTransportStats)
        ensures
            r.queued == self.queue().len(),
            r.dropped == self.dropped(),
    {
        proof {
            use_type_invariant(self);
        }
        PhysicalTransportStats { queued: self.original.len() - self.next, dropped: self.dropped }
    }
}

} // verus!
