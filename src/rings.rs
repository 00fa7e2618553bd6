//! What the daemon knows of one ring buffer: the path of its backing file
//! and the clients (producers and consumers) recorded against it.
use vstd::prelude::*;
use std::collections::HashMap;

verus! {

broadcast use vstd::std_specs::hash::group_hash_axioms;

/// How a process is attached to a ring: as its producer, or as the
/// consumer in one slot.
#[derive(Copy, Clone, Debug, PartialEq, Eq, Structural)]
pub enum Client {
    Producer { pid: u32 },
    Consumer { pid: u32, slot: u32 },
}

impl Client {
    /// The process id of the client, whatever its role.
    pub open spec fn spec_pid(self) -> u32 {
        match self {
            Client::Producer { pid } => pid,
            Client::Consumer { pid, .. } => pid,
        }
    }

    /// The process id of the client, whatever its role.
    pub fn pid(&self) -> (r: u32)
        ensures
            r == self.spec_pid(),
    {
        match self {
            Client::Producer { pid } => *pid,
            Client::Consumer { pid, .. } => *pid,
        }
    }
}

impl Client {
    /// Whether the slot's current occupant is this client: a slot whose
    /// pid is `owner` is freed on the client's behalf only then (`None`
    /// when the slot could not be read).
    pub fn holds(&self, owner: Option<u32>) -> (r: bool)
        ensures
            r == (owner == Some(self.spec_pid())),
    {
        match owner {
            Some(p) => p == self.pid(),
            None => false,
        }
    }
}

/// A client recorded against a ring, with the flag that says whether its
/// watch is still wanted.
#[derive(Copy, Clone, Debug)]
pub struct ClientMonitorInfo {
    pub should_run: bool,
    pub client_info: Client,
}

impl ClientMonitorInfo {
    /// A record for `client` whose watch is wanted.
    pub fn new(client: Client) -> (r: ClientMonitorInfo)
        ensures
            r.should_run,
            r.client_info == client,
    {
        ClientMonitorInfo { should_run: true, client_info: client }
    }

    /// Asks the watch to stop, without waiting for it.
    pub fn schedule_stop_monitor(&mut self)
        ensures
            !final(self).should_run,
            final(self).client_info == old(self).client_info,
    {
        self.should_run = false;
    }

    /// Asks the watch to stop.
    pub fn stop_monitor(&mut self)
        ensures
            !final(self).should_run,
            final(self).client_info == old(self).client_info,
    {
        self.should_run = false;
    }

    /// Whether the watch is still wanted.
    pub fn keep_running(&self) -> (r: bool)
        ensures
            r == self.should_run,
    {
        self.should_run
    }
}

/// A ring buffer and the clients recorded against it, at most one per pid.
pub struct RingBufferInfo {
    pub ring_file: String,
    pub client_monitors: HashMap<u32, ClientMonitorInfo>,
}

impl RingBufferInfo {
    /// The recorded clients, by pid.
    pub open spec fn clients(&self) -> Map<u32, ClientMonitorInfo> {
        self.client_monitors@
    }

    /// A ring backed by the file `ring`, with no clients.
    pub fn new(ring: &str) -> (r: RingBufferInfo)
        ensures
            r.ring_file@ == ring@,
            r.clients() == Map::<u32, ClientMonitorInfo>::empty(),
    {
        RingBufferInfo { ring_file: ring.to_owned(), client_monitors: HashMap::new() }
    }

    /// Whether a client with this pid is recorded.
    pub fn have_pid(&self, pid: u32) -> (r: bool)
        ensures
            r == self.clients().contains_key(pid),
    {
        self.client_monitors.contains_key(&pid)
    }

    /// The record of the client with this pid, if there is one.
    pub fn get_client_info(&self, pid: &u32) -> (r: Option<&ClientMonitorInfo>)
        ensures
            match r {
                Some(c) => self.clients().contains_key(*pid) && *c == self.clients()[*pid],
                None => !self.clients().contains_key(*pid),
            },
    {
        self.client_monitors.get(pid)
    }

    /// The number of recorded clients.
    pub fn client_count(&self) -> (r: usize)
        ensures
            r == self.clients().len(),
    {
        self.client_monitors.len()
    }

    /// Records a client under its pid, replacing any record with that pid;
    /// returns the ring for chaining.
    pub fn add_client(&mut self, client: ClientMonitorInfo) -> (r: &mut RingBufferInfo)
        ensures
            r.clients() == old(self).clients().insert(client.client_info.spec_pid(), client),
            r.ring_file == old(self).ring_file,
            *final(self) == *final(r),
    {
        let key = client.client_info.pid();
        self.client_monitors.insert(key, client);
        self
    }

    /// Forgets the client with this pid, if any; returns the ring for
    /// chaining.
    pub fn unlist_client(&mut self, pid: u32) -> (r: &mut RingBufferInfo)
        ensures
            r.clients() == old(self).clients().remove(pid),
            r.ring_file == old(self).ring_file,
            *final(self) == *final(r),
    {
        self.client_monitors.remove(&pid);
        self
    }

    /// Forgets the client with this pid, if any, after asking its watch to
    /// stop; the process itself is left alone. Returns the ring for
    /// chaining.
    pub fn unregister_client(&mut self, pid: u32) -> (r: &mut RingBufferInfo)
        ensures
            r.clients() == old(self).clients().remove(pid),
            r.ring_file == old(self).ring_file,
            *final(self) == *final(r),
    {
        if let Some(mut info) = self.client_monitors.remove(&pid) {
            info.schedule_stop_monitor();
        }
        self
    }

    /// Removes the client with this pid, if any, stopping its watch.
    /// Returns the ring for chaining.
    pub fn remove_client(&mut self, pid: u32) -> (r: &mut RingBufferInfo)
        ensures
            r.clients() == old(self).clients().remove(pid),
            r.ring_file == old(self).ring_file,
            *final(self) == *final(r),
    {
        if let Some(mut info) = self.client_monitors.remove(&pid) {
            info.stop_monitor();
        }
        self
    }

    /// Removes every client. Returns the ring for chaining.
    pub fn remove_all(&mut self) -> (r: &mut RingBufferInfo)
        ensures
            r.clients() == Map::<u32, ClientMonitorInfo>::empty(),
            r.ring_file == old(self).ring_file,
            *final(self) == *final(r),
    {
        self.client_monitors.clear();
        self
    }
}

} // verus!
