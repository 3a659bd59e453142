//! The settings of a benchmark run: connection pool, threads, duration,
//! reporting windows, socket options and timeouts, with the protocol's own
//! configuration and where statistics go.

use vstd::prelude::*;

verus! {

/// The settings of a benchmark run, with the protocol configuration `P` and
/// the sender of statistics `S`.
pub struct BenchmarkConfig<P, S> {
    pub connections: usize,
    pub threads: usize,
    pub duration: usize,
    pub windows: usize,
    pub tcp_nodelay: bool,
    pub ipv4: bool,
    pub ipv6: bool,
    pub timeout: Option<u64>,
    pub protocol_config: P,
    stats: Option<S>,
    connect_timeout: Option<u64>,
}

impl<P, S> BenchmarkConfig<P, S> {
    /// The settings in order: connections, threads, duration, windows, no
    /// delay, IPv4, IPv6, timeout, protocol configuration, where statistics
    /// go, and the timeout for connecting.
    pub closed spec fn parts(&self) -> (
        usize,
        usize,
        usize,
        usize,
        bool,
        bool,
        bool,
        Option<u64>,
        P,
        Option<S>,
        Option<u64>,
    ) {
        (
            self.connections,
            self.threads,
            self.duration,
            self.windows,
            self.tcp_nodelay,
            self.ipv4,
            self.ipv6,
            self.timeout,
            self.protocol_config,
            self.stats,
            self.connect_timeout,
        )
    }

    /// The settings by default for `protocol`: one connection on one
    /// thread, a run of sixty seconds in five windows, no delay disabled,
    /// both IPv4 and IPv6, no timeouts and no statistics.
    pub fn new(protocol: P) -> (c: Self)
        ensures
            c.parts() == (1usize, 1usize, 60usize, 5usize, false, true, true, None::<u64>, protocol, None::<S>, None::<u64>),
    {
        BenchmarkConfig {
            connections: 1,
            threads: 1,
            duration: 60,
            windows: 5,
            tcp_nodelay: false,
            ipv4: true,
            ipv6: true,
            timeout: None,
            protocol_config: protocol,
            stats: None,
            connect_timeout: None,
        }
    }

    /// Sets the number of connections.
    pub fn set_poolsize(&mut self, connections: usize) -> (r: &Self)
        ensures
            final(self).parts() == (
                connections,
                old(self).parts().1,
                old(self).parts().2,
                old(self).parts().3,
                old(self).parts().4,
                old(self).parts().5,
                old(self).parts().6,
                old(self).parts().7,
                old(self).parts().8,
                old(self).parts().9,
                old(self).parts().10,
            ),
            r.parts() == final(self).parts(),
    {
        self.connections = connections;
        self
    }

    /// Sets the number of threads.
    pub fn set_threads(&mut self, threads: usize) -> (r: &Self)
        ensures
            final(self).parts() == (
                old(self).parts().0,
                threads,
                old(self).parts().2,
                old(self).parts().3,
                old(self).parts().4,
                old(self).parts().5,
                old(self).parts().6,
                old(self).parts().7,
                old(self).parts().8,
                old(self).parts().9,
                old(self).parts().10,
            ),
            r.parts() == final(self).parts(),
    {
        self.threads = threads;
        self
    }

    /// Sets the length of the run in seconds.
    pub fn set_duration(&mut self, seconds: usize) -> (r: &Self)
        ensures
            final(self).parts() == (
                old(self).parts().0,
                old(self).parts().1,
                seconds,
                old(self).parts().3,
                old(self).parts().4,
                old(self).parts().5,
                old(self).parts().6,
                old(self).parts().7,
                old(self).parts().8,
                old(self).parts().9,
                old(self).parts().10,
            ),
            r.parts() == final(self).parts(),
    {
        self.duration = seconds;
        self
    }

    /// Sets the number of reporting windows.
    pub fn set_windows(&mut self, count: usize) -> (r: &Self)
        ensures
            final(self).parts() == (
                old(self).parts().0,
                old(self).parts().1,
                old(self).parts().2,
                count,
                old(self).parts().4,
                old(self).parts().5,
                old(self).parts().6,
                old(self).parts().7,
                old(self).parts().8,
                old(self).parts().9,
                old(self).parts().10,
            ),
            r.parts() == final(self).parts(),
    {
        self.windows = count;
        self
    }

    /// Turns the no-delay socket option on or off.
    pub fn set_tcp_nodelay(&mut self, enabled: bool) -> (r: &Self)
        ensures
            final(self).parts() == (
                old(self).parts().0,
                old(self).parts().1,
                old(self).parts().2,
                old(self).parts().3,
                enabled,
                old(self).parts().5,
                old(self).parts().6,
                old(self).parts().7,
                old(self).parts().8,
                old(self).parts().9,
                old(self).parts().10,
            ),
            r.parts() == final(self).parts(),
    {
        self.tcp_nodelay = enabled;
        self
    }

    /// Sets where statistics go.
    pub fn set_stats(&mut self, sender: S) -> (r: &Self)
        ensures
            final(self).parts() == (
                old(self).parts().0,
                old(self).parts().1,
                old(self).parts().2,
                old(self).parts().3,
                old(self).parts().4,
                old(self).parts().5,
                old(self).parts().6,
                old(self).parts().7,
                old(self).parts().8,
                Some(sender),
                old(self).parts().10,
            ),
            r.parts() == final(self).parts(),
    {
        self.stats = Some(sender);
        self
    }

    /// The timeout for connecting, if any.
    pub fn connect_timeout(&self) -> (r: Option<u64>)
        ensures
            r == self.parts().10,
    {
        self.connect_timeout
    }
}

} // verus!
