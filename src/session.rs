//! The request handling of one control connection, as a state machine.
//!
//! The caller owns the socket and the ring files. It feeds the session one
//! event at a time (a request line, the end of the stream, or the answer to
//! what the previous step asked for) and carries out what the step returns:
//! it writes the reply, if any, then performs the effect. Every failure
//! reply ends the connection. When the connection ends for any reason, the
//! reservations still held are released (see `Session::releases`).
use vstd::prelude::*;
use crate::connections::{
    ConnectionTable,
    held,
    recorded,
    unrecorded,
    connection_exists,
    record_connection,
    unrecord_connection,
};
use crate::inventory::RingInventory;
use crate::listing::{RingInfo, describe_ring, ring_description};
use crate::paths::{joined, compute_ring_buffer_path};
use crate::protocol::{
    PeerAddress,
    Verb,
    fail_text,
    ok_text,
    fail_reply,
    ok_reply,
    is_loopback,
    is_local_peer,
    role_client,
    parse_role,
    connect_role_failure,
    connect_role_failure_text,
    disconnect_role_failure,
    disconnect_role_failure_text,
    verb,
    verb_of,
};
use crate::rings::{Client, RingBufferInfo};
use crate::tcllist::{TclList, body};
use crate::text::{
    decimal,
    decimal_string,
    line_to_words,
    push_char,
    strip_braces,
    unbraced,
    unsigned_value,
    parse_unsigned,
    views,
    words,
};

verus! {

/// What the session waits for before it can go on.
pub enum Pending {
    /// The next request.
    Idle,
    /// Whether the file of the ring being registered opens as a ring.
    Register(String),
    /// Whether a consumer slot exists, for a `CONNECT` on the ring as the
    /// client wrote it.
    Connect(String, Client),
    /// Who holds a slot, for a `DISCONNECT` that no reservation covers.
    Disconnect(String, Client),
    /// The usage of each of these rings, for a `LIST`.
    List(Vec<String>),
    /// Nothing: the connection is over.
    Closed,
}

/// What the caller does after writing a step's reply.
pub enum Effect {
    /// Read the next request line.
    ReadNext,
    /// Shut the connection down.
    Close,
    /// Try to open this file as a ring; answer `RingOpened`.
    OpenRing(String),
    /// Read the pid in this client's slot of this ring file; answer
    /// `SlotOwner` (`None` when the slot cannot be read).
    ReadSlot(String, Client),
    /// Read the usage of each of these ring files; answer `Surveyed`, one
    /// entry per file, in order (`None` for a file that no longer opens).
    Survey(Vec<String>),
    /// Free this client's slot in this ring file (ignoring failure), then
    /// read the next request.
    Free(String, Client),
    /// Start the hoister with these arguments and the connection as its
    /// standard output; the connection is then over for this session.
    Hoist(Vec<String>),
}

/// What the session is told.
pub enum Event {
    /// A request line as read.
    Request(String),
    /// The peer closed the connection, or reading failed.
    Eof,
    /// The answer to `Effect::OpenRing`.
    RingOpened(bool),
    /// The answer to `Effect::ReadSlot`.
    SlotOwner(Option<u32>),
    /// The answer to `Effect::Survey`.
    Surveyed(Vec<Option<RingInfo>>),
}

/// One step's outcome: a reply line to write, if any, then an effect.
pub struct Step {
    pub reply: Option<String>,
    pub effect: Effect,
}

/// The state of one control connection.
pub struct Session {
    pub directory: String,
    pub portman: u16,
    pub peer: Option<PeerAddress>,
    pub peer_text: String,
    pub client_pid: Option<u32>,
    pub connections: ConnectionTable,
    pub pending: Pending,
}

/// The step writes `text`.
pub open spec fn says(r: Step, text: Seq<char>) -> bool {
    match r.reply {
        Some(t) => t@ == text,
        None => false,
    }
}

/// The step fails with `reason` and closes the connection.
pub open spec fn failed(r: Step, reason: Seq<char>) -> bool {
    says(r, fail_text(reason)) && r.effect is Close
}

/// The step acknowledges and reads on.
pub open spec fn acked(r: Step) -> bool {
    says(r, ok_text()) && r.effect is ReadNext
}

/// `t` has the setup of `s`: directory, port-manager port and peer.
pub open spec fn same_setup(s: Session, t: Session) -> bool {
    &&& t.directory == s.directory
    &&& t.portman == s.portman
    &&& t.peer == s.peer
    &&& t.peer_text == s.peer_text
    &&& t.connections.wf()
}

/// `t` keeps the pid and the reservations of `s`.
pub open spec fn kept(s: Session, t: Session) -> bool {
    &&& same_setup(s, t)
    &&& t.client_pid == s.client_pid
    &&& t.connections@ == s.connections@
}

/// `t` is `s`, closed.
pub open spec fn closed_after(s: Session, t: Session) -> bool {
    kept(s, t) && t.pending is Closed
}

/// `t` is `s`, waiting for the next request.
pub open spec fn idle_after(s: Session, t: Session) -> bool {
    kept(s, t) && t.pending is Idle
}

/// The ring file of the ring `name` in the session's directory.
pub open spec fn ring_path(s: Session, name: Seq<char>) -> Seq<char> {
    joined(s.directory@, name)
}

/// The effect is `ReadSlot` on `path` for `c`.
pub open spec fn reads_slot(r: Step, path: Seq<char>, c: Client) -> bool {
    match r.effect {
        Effect::ReadSlot(p, d) => p@ == path && d == c,
        _ => false,
    }
}

/// The effect is `Free` on `path` for `c`.
pub open spec fn frees(r: Step, path: Seq<char>, c: Client) -> bool {
    match r.effect {
        Effect::Free(p, d) => p@ == path && d == c,
        _ => false,
    }
}


/// The effect is `OpenRing` on `path`.
pub open spec fn opens(r: Step, path: Seq<char>) -> bool {
    match r.effect {
        Effect::OpenRing(p) => p@ == path,
        _ => false,
    }
}

/// The effect is `Hoist` with these arguments.
pub open spec fn hoists(r: Step, args: Seq<Seq<char>>) -> bool {
    match r.effect {
        Effect::Hoist(a) => views(a@) == args,
        _ => false,
    }
}

/// The request is refused with `reason`: the connection closes and
/// nothing else changes.
pub open spec fn refused(
    s: Session,
    inv: Map<Seq<char>, RingBufferInfo>,
    reason: Seq<char>,
    t: Session,
    inv2: Map<Seq<char>, RingBufferInfo>,
    r: Step,
) -> bool {
    failed(r, reason) && closed_after(s, t) && inv2 == inv
}

/// The session gives up without a reply: the caller answered something
/// that was not asked, or the connection is already over.
pub open spec fn abandoned(
    s: Session,
    inv: Map<Seq<char>, RingBufferInfo>,
    t: Session,
    inv2: Map<Seq<char>, RingBufferInfo>,
    r: Step,
) -> bool {
    r.reply is None && r.effect is Close && closed_after(s, t) && inv2 == inv
}

/// The arguments of the hoister for the ring `name`.
pub open spec fn hoist_args(s: Session, name: Seq<char>) -> Seq<Seq<char>> {
    seq![
        "--directory"@,
        s.directory@,
        "--ring"@,
        name,
        "--port"@,
        decimal(s.portman as nat),
        "--comment"@,
        "Hoisting to "@ + s.peer_text@,
    ]
}

/// The outcome of `REGISTER name`.
pub open spec fn register_outcome(
    s: Session,
    inv: Map<Seq<char>, RingBufferInfo>,
    name: Seq<char>,
    t: Session,
    inv2: Map<Seq<char>, RingBufferInfo>,
    r: Step,
) -> bool {
    let n = unbraced(name);
    if !is_loopback(s.peer) {
        refused(s, inv, "REGISTER Must come from a local host"@, t, inv2, r)
    } else if inv.contains_key(n) {
        acked(r) && idle_after(s, t) && inv2 == inv
    } else {
        &&& r.reply is None
        &&& opens(r, ring_path(s, n))
        &&& kept(s, t)
        &&& (match t.pending {
            Pending::Register(m) => m@ == n,
            _ => false,
        })
        &&& inv2 == inv
    }
}

/// The outcome of the open test that a `REGISTER` of `name` asked for.
pub open spec fn registered(
    s: Session,
    inv: Map<Seq<char>, RingBufferInfo>,
    name: Seq<char>,
    opened: bool,
    t: Session,
    inv2: Map<Seq<char>, RingBufferInfo>,
    r: Step,
) -> bool {
    if opened {
        &&& acked(r)
        &&& idle_after(s, t)
        &&& inv.contains_key(name) ==> inv2 == inv
        &&& !inv.contains_key(name) ==> {
            &&& inv2.dom() == inv.dom().insert(name)
            &&& inv2[name].ring_file@ == ring_path(s, name)
            &&& inv2[name].clients() == Map::<u32, crate::rings::ClientMonitorInfo>::empty()
            &&& inv2.remove(name) == inv.remove(name)
        }
    } else {
        refused(s, inv, name + " is not a ringbuffer"@, t, inv2, r)
    }
}

/// The outcome of `UNREGISTER name`.
pub open spec fn unregister_outcome(
    s: Session,
    inv: Map<Seq<char>, RingBufferInfo>,
    name: Seq<char>,
    t: Session,
    inv2: Map<Seq<char>, RingBufferInfo>,
    r: Step,
) -> bool {
    if !is_loopback(s.peer) {
        refused(s, inv, "UNREGISTER request only legal from local peers"@, t, inv2, r)
    } else {
        acked(r) && idle_after(s, t) && inv2 == inv.remove(unbraced(name))
    }
}

/// The pid a request names would be refused as a spoof: the connection
/// already claimed another one.
pub open spec fn spoofed(s: Session, pid: u32) -> bool {
    s.client_pid is Some && s.client_pid != Some(pid)
}

/// The outcome of `CONNECT ring role pid`.
pub open spec fn connect_outcome(
    s: Session,
    inv: Map<Seq<char>, RingBufferInfo>,
    ring: Seq<char>,
    role: Seq<char>,
    pid: Seq<char>,
    t: Session,
    r: Step,
) -> bool {
    let n = unbraced(ring);
    if !is_loopback(s.peer) {
        failed(r, "CONNECT must be from a local process"@) && closed_after(s, t)
    } else if !inv.contains_key(n) {
        failed(r, "No such ringbuffer in inventory"@) && closed_after(s, t)
    } else {
        match unsigned_value(pid, u32::MAX as nat) {
            None => failed(r, "Invalid process ID"@) && closed_after(s, t),
            Some(v) => if spoofed(s, v as u32) {
                failed(r, "PID spoof attempt"@) && closed_after(s, t)
            } else {
                match role_client(role, v as u32) {
                    None => failed(r, connect_role_failure(role)) && closed_after(s, t),
                    Some(c) => match c {
                        Client::Producer { .. } => {
                            &&& acked(r)
                            &&& same_setup(s, t)
                            &&& t.client_pid == Some(v as u32)
                            &&& recorded(s.connections@, t.connections@, ring, c)
                            &&& t.pending is Idle
                        },
                        Client::Consumer { .. } => {
                            &&& r.reply is None
                            &&& reads_slot(r, ring_path(s, n), c)
                            &&& kept(s, t)
                            &&& (match t.pending {
                                Pending::Connect(w, d) => w@ == ring && d == c,
                                _ => false,
                            })
                        },
                    },
                }
            },
        }
    }
}

/// The outcome of the slot read that a `CONNECT` of consumer `c` on
/// `ring` asked for.
pub open spec fn connected(s: Session, ring: Seq<char>, c: Client, owner: Option<u32>, t: Session, r: Step) -> bool {
    match owner {
        Some(_) => {
            &&& acked(r)
            &&& same_setup(s, t)
            &&& t.client_pid == Some(c.spec_pid())
            &&& recorded(s.connections@, t.connections@, ring, c)
            &&& t.pending is Idle
        },
        None => failed(r, "No such consumer slot"@) && closed_after(s, t),
    }
}

/// The outcome of `DISCONNECT ring role pid`.
pub open spec fn disconnect_outcome(
    s: Session,
    inv: Map<Seq<char>, RingBufferInfo>,
    ring: Seq<char>,
    role: Seq<char>,
    pid: Seq<char>,
    t: Session,
    r: Step,
) -> bool {
    let n = unbraced(ring);
    if !is_loopback(s.peer) {
        failed(r, "DISCONNECT must be local"@) && closed_after(s, t)
    } else {
        match unsigned_value(pid, u32::MAX as nat) {
            None => failed(r, pid + " - pid must parse as an unsigned integer"@) && closed_after(s, t),
            Some(v) => if spoofed(s, v as u32) {
                failed(r, "attemped PID spoof"@) && closed_after(s, t)
            } else {
                match role_client(role, v as u32) {
                    None => failed(r, disconnect_role_failure(role)) && closed_after(s, t),
                    Some(c) => if held(s.connections@, n).contains(c) {
                        &&& says(r, ok_text())
                        &&& frees(r, ring_path(s, n), c)
                        &&& same_setup(s, t)
                        &&& t.client_pid == Some(v as u32)
                        &&& unrecorded(s.connections@, t.connections@, ring, c)
                        &&& t.pending is Idle
                    } else if !inv.contains_key(n) {
                        failed(r, n + " is not a ring name registered to PID "@ + pid) && closed_after(s, t)
                    } else {
                        &&& r.reply is None
                        &&& reads_slot(r, ring_path(s, n), c)
                        &&& kept(s, t)
                        &&& (match t.pending {
                            Pending::Disconnect(w, d) => w@ == ring && d == c,
                            _ => false,
                        })
                    },
                }
            },
        }
    }
}

/// Why a `DISCONNECT` that no reservation covers is refused when the
/// slot does not hold the client's pid.
pub open spec fn not_owner(c: Client, ring: Seq<char>) -> Seq<char> {
    match c {
        Client::Producer { pid } => decimal(pid as nat) + " is not the producer of "@ + ring,
        Client::Consumer { pid, slot } => decimal(pid as nat) + " is not a consumer on slot "@
            + decimal(slot as nat) + " of ring "@ + ring,
    }
}

/// The reason of `not_owner`.
pub fn not_owner_text(c: &Client, ring: &str) -> (r: String)
    ensures
        r@ == not_owner(*c, ring@),
{
    match c {
        Client::Producer { pid } => {
            let mut r = decimal_string(*pid as u64);
            r.append(" is not the producer of ");
            r.append(ring);
            r
        },
        Client::Consumer { pid, slot } => {
            let mut r = decimal_string(*pid as u64);
            r.append(" is not a consumer on slot ");
            let slot_text = decimal_string(*slot as u64);
            r.append(slot_text.as_str());
            r.append(" of ring ");
            r.append(ring);
            r
        },
    }
}

/// The outcome of the slot read that a `DISCONNECT` of `c` on `ring`
/// asked for, when no reservation covered it.
pub open spec fn disconnected(s: Session, ring: Seq<char>, c: Client, owner: Option<u32>, t: Session, r: Step) -> bool {
    if owner == Some(c.spec_pid()) {
        &&& says(r, ok_text())
        &&& frees(r, ring_path(s, unbraced(ring)), c)
        &&& same_setup(s, t)
        &&& t.client_pid == Some(c.spec_pid())
        &&& t.connections@ == s.connections@
        &&& t.pending is Idle
    } else {
        failed(r, not_owner(c, unbraced(ring))) && closed_after(s, t)
    }
}

/// The outcome of `REMOTE name`.
pub open spec fn remote_outcome(
    s: Session,
    inv: Map<Seq<char>, RingBufferInfo>,
    name: Seq<char>,
    t: Session,
    r: Step,
) -> bool {
    let n = unbraced(name);
    if is_loopback(s.peer) {
        failed(r, "REMOTE must come from a remote host"@) && closed_after(s, t)
    } else if !inv.contains_key(n) {
        failed(r, n + " is not in the ring master's inventory"@) && closed_after(s, t)
    } else {
        says(r, "OK BINARY FOLLOWS\r\n"@) && hoists(r, hoist_args(s, n)) && closed_after(s, t)
    }
}

/// The descriptions of the surveyed rings that the survey reached, in
/// order, each under its name in the inventory.
pub open spec fn descriptions(names: Seq<Seq<char>>, infos: Seq<Option<RingInfo>>) -> Seq<Seq<char>>
    decreases names.len(),
{
    if names.len() == 0 {
        seq![]
    } else {
        let i = names.len() - 1;
        let d = descriptions(names.drop_last(), infos);
        if i < infos.len() && infos[i] is Some {
            d.push(ring_description(names[i], infos[i]->0))
        } else {
            d
        }
    }
}

/// The `LIST` reply: `OK`, then the descriptions of the rings, each
/// followed by a space, on one line.
pub open spec fn listing_text(names: Seq<Seq<char>>, infos: Seq<Option<RingInfo>>) -> Seq<char> {
    ok_text() + body(descriptions(names, infos)) + seq!['\r', '\n']
}

/// The surveyed rings whose files no longer open.
pub open spec fn gone(names: Seq<Seq<char>>, infos: Seq<Option<RingInfo>>) -> Set<Seq<char>> {
    Set::new(
        |k: Seq<char>|
            exists|i: int|
                0 <= i < names.len() && names[i] == k && (i >= infos.len() || infos[i] is None),
    )
}

/// The outcome of `LIST`: every known ring is surveyed.
pub open spec fn list_started(s: Session, inv: Map<Seq<char>, RingBufferInfo>, t: Session, r: Step) -> bool {
    &&& r.reply is None
    &&& kept(s, t)
    &&& match t.pending {
        Pending::List(names) => {
            &&& views(names@).no_duplicates()
            &&& views(names@).to_set() == inv.dom()
            &&& match r.effect {
                Effect::Survey(paths) => paths@.len() == names@.len() && forall|i: int|
                    0 <= i < paths@.len() ==> #[trigger] paths@[i]@ == ring_path(s, names@[i]@),
                _ => false,
            }
        },
        _ => false,
    }
}

/// The outcome of the survey that a `LIST` of `names` asked for: the
/// reply describes the rings that were reached, the others leave the
/// inventory, and the connection closes.
pub open spec fn listed(
    s: Session,
    inv: Map<Seq<char>, RingBufferInfo>,
    names: Seq<Seq<char>>,
    infos: Seq<Option<RingInfo>>,
    t: Session,
    inv2: Map<Seq<char>, RingBufferInfo>,
    r: Step,
) -> bool {
    &&& says(r, listing_text(names, infos))
    &&& r.effect is Close
    &&& closed_after(s, t)
    &&& inv2 == inv.remove_keys(gone(names, infos))
}

/// The outcome of one request line.
pub open spec fn line_outcome(
    s: Session,
    inv: Map<Seq<char>, RingBufferInfo>,
    line: Seq<char>,
    t: Session,
    inv2: Map<Seq<char>, RingBufferInfo>,
    r: Step,
) -> bool {
    let ws = words(line);
    if ws.len() == 0 {
        refused(s, inv, "Empty request"@, t, inv2, r)
    } else {
        match verb_of(ws[0]) {
            Verb::List => if ws.len() != 1 {
                refused(s, inv, "LIST does not take any parameters"@, t, inv2, r)
            } else {
                list_started(s, inv, t, r) && inv2 == inv
            },
            Verb::Register => if ws.len() != 2 {
                refused(s, inv, "REGISTER must have only a ring name parameter"@, t, inv2, r)
            } else {
                register_outcome(s, inv, ws[1], t, inv2, r)
            },
            Verb::Unregister => if ws.len() != 2 {
                refused(s, inv, "UNREGISTER must have only a ring name parameter"@, t, inv2, r)
            } else {
                unregister_outcome(s, inv, ws[1], t, inv2, r)
            },
            Verb::Connect => if ws.len() < 4 {
                refused(s, inv, "Unregister must have at least name, type, pid"@, t, inv2, r)
            } else {
                connect_outcome(s, inv, ws[1], ws[2], ws[3], t, r) && inv2 == inv
            },
            Verb::Disconnect => if ws.len() != 4 {
                refused(s, inv, "Invalid request length"@, t, inv2, r)
            } else {
                disconnect_outcome(s, inv, ws[1], ws[2], ws[3], t, r) && inv2 == inv
            },
            Verb::Remote => if ws.len() != 2 {
                refused(s, inv, "Invalid request length"@, t, inv2, r)
            } else {
                remote_outcome(s, inv, ws[1], t, r) && inv2 == inv
            },
            Verb::Unknown => refused(s, inv, "Invalid Request"@, t, inv2, r),
        }
    }
}

/// The outcome of one step: what the session does with `event` depends on
/// what it was waiting for.
pub open spec fn stepped(
    s: Session,
    inv: Map<Seq<char>, RingBufferInfo>,
    event: Event,
    t: Session,
    inv2: Map<Seq<char>, RingBufferInfo>,
    r: Step,
) -> bool {
    match s.pending {
        Pending::Idle => match event {
            Event::Request(line) => line_outcome(s, inv, line@, t, inv2, r),
            Event::Eof => refused(s, inv, "Empty request"@, t, inv2, r),
            _ => abandoned(s, inv, t, inv2, r),
        },
        Pending::Register(name) => match event {
            Event::RingOpened(ok) => registered(s, inv, name@, ok, t, inv2, r),
            _ => abandoned(s, inv, t, inv2, r),
        },
        Pending::Connect(ring, c) => match event {
            Event::SlotOwner(owner) => connected(s, ring@, c, owner, t, r) && inv2 == inv,
            _ => abandoned(s, inv, t, inv2, r),
        },
        Pending::Disconnect(ring, c) => match event {
            Event::SlotOwner(owner) => disconnected(s, ring@, c, owner, t, r) && inv2 == inv,
            _ => abandoned(s, inv, t, inv2, r),
        },
        Pending::List(names) => match event {
            Event::Surveyed(infos) => listed(s, inv, views(names@), infos@, t, inv2, r),
            _ => abandoned(s, inv, t, inv2, r),
        },
        Pending::Closed => abandoned(s, inv, t, inv2, r),
    }
}

/// Some entry of `out` is `c`'s slot in the ring file `path`.
pub open spec fn covers(out: Seq<(String, Client)>, path: Seq<char>, c: Client) -> bool {
    exists|q: int| 0 <= q < out.len() && #[trigger] out[q].0@ == path && out[q].1 == c
}

/// `e` is the slot of a reservation that `s` holds.
pub open spec fn reserved_slot(s: Session, e: (String, Client)) -> bool {
    exists|k: Seq<char>| #[trigger] held(s.connections@, k).contains(e.1) && e.0@ == ring_path(s, k)
}

impl Session {
    /// The session's invariant.
    pub open spec fn wf(&self) -> bool {
        self.connections.wf()
    }

    /// A fresh session for a peer: no pid claimed, no reservations.
    pub fn new(directory: String, portman: u16, peer: Option<PeerAddress>, peer_text: String) -> (r: Session)
        ensures
            r.wf(),
            r.directory == directory,
            r.portman == portman,
            r.peer == peer,
            r.peer_text == peer_text,
            r.client_pid is None,
            r.connections@ == Map::<Seq<char>, Vec<Client>>::empty(),
            r.pending is Idle,
    {
        Session {
            directory,
            portman,
            peer,
            peer_text,
            client_pid: None,
            connections: ConnectionTable::new(),
            pending: Pending::Idle,
        }
    }

    /// Fails the request with `reason`; the connection is then over.
    fn fail_request(&mut self, reason: &str) -> (r: Step)
        requires
            old(self).wf(),
        ensures
            failed(r, reason@),
            closed_after(*old(self), *final(self)),
    {
        self.pending = Pending::Closed;
        Step { reply: Some(fail_reply(reason)), effect: Effect::Close }
    }

    /// Acknowledges the request and waits for the next one.
    fn acknowledge(&mut self) -> (r: Step)
        requires
            old(self).wf(),
        ensures
            acked(r),
            idle_after(*old(self), *final(self)),
    {
        self.pending = Pending::Idle;
        Step { reply: Some(ok_reply()), effect: Effect::ReadNext }
    }

    /// `REGISTER name`: a known ring is acknowledged; an unknown one is
    /// registered once its file opens as a ring.
    pub fn register_ring(&mut self, inventory: &RingInventory, name: &str) -> (r: Step)
        requires
            old(self).wf(),
            inventory.wf(),
        ensures
            final(self).wf(),
            register_outcome(*old(self), inventory@, name@, *final(self), inventory@, r),
    {
        if !is_local_peer(&self.peer) {
            return self.fail_request("REGISTER Must come from a local host");
        }
        let ring = strip_braces(name);
        if inventory.contains(ring.as_str()) {
            return self.acknowledge();
        }
        let path = compute_ring_buffer_path(self.directory.as_str(), ring.as_str());
        self.pending = Pending::Register(ring);
        Step { reply: None, effect: Effect::OpenRing(path) }
    }

    fn finish_register(&mut self, inventory: &mut RingInventory, name: String, opened: bool) -> (r: Step)
        requires
            old(self).wf(),
            old(inventory).wf(),
        ensures
            final(self).wf(),
            final(inventory).wf(),
            registered(*old(self), old(inventory)@, name@, opened, *final(self), final(inventory)@, r),
    {
        if !opened {
            let mut reason = name.clone();
            reason.append(" is not a ringbuffer");
            return self.fail_request(reason.as_str());
        }
        if !inventory.contains(name.as_str()) {
            let path = compute_ring_buffer_path(self.directory.as_str(), name.as_str());
            let ghost key = name@;
            inventory.insert(name, RingBufferInfo::new(path.as_str()));
            assert(inventory@.remove(key) =~= old(inventory)@.remove(key));
            assert(inventory@.dom() =~= old(inventory)@.dom().insert(key));
        }
        self.acknowledge()
    }

    /// `UNREGISTER name`: the ring leaves the inventory if it is there.
    /// Its file is left alone.
    pub fn unregister_ring(&mut self, inventory: &mut RingInventory, name: &str) -> (r: Step)
        requires
            old(self).wf(),
            old(inventory).wf(),
        ensures
            final(self).wf(),
            final(inventory).wf(),
            unregister_outcome(*old(self), old(inventory)@, name@, *final(self), final(inventory)@, r),
    {
        if !is_local_peer(&self.peer) {
            return self.fail_request("UNREGISTER request only legal from local peers");
        }
        let ring = strip_braces(name);
        inventory.remove(ring.as_str());
        self.acknowledge()
    }

    /// `CONNECT ring role pid`: reserves the client on this connection.
    /// A consumer's slot is first looked up in the ring file.
    pub fn connect_client(&mut self, inventory: &RingInventory, ring: &str, connection_type: &str, pid: &str) -> (r: Step)
        requires
            old(self).wf(),
            inventory.wf(),
        ensures
            final(self).wf(),
            connect_outcome(*old(self), inventory@, ring@, connection_type@, pid@, *final(self), r),
    {
        if !is_local_peer(&self.peer) {
            return self.fail_request("CONNECT must be from a local process");
        }
        let ring_name = strip_braces(ring);
        if !inventory.contains(ring_name.as_str()) {
            return self.fail_request("No such ringbuffer in inventory");
        }
        let pid_value = match parse_unsigned(pid, 0xffff_ffffu64) {
            Some(v) => v as u32,
            None => {
                return self.fail_request("Invalid process ID");
            },
        };
        match self.client_pid {
            Some(claimed) => {
                if claimed != pid_value {
                    return self.fail_request("PID spoof attempt");
                }
            },
            None => {},
        }
        match parse_role(connection_type, pid_value) {
            None => {
                let reason = connect_role_failure_text(connection_type);
                self.fail_request(reason.as_str())
            },
            Some(client) => match client {
                Client::Producer { .. } => {
                    self.client_pid = Some(pid_value);
                    record_connection(ring, &mut self.connections, client);
                    self.acknowledge()
                },
                Client::Consumer { .. } => {
                    let path = compute_ring_buffer_path(self.directory.as_str(), ring_name.as_str());
                    self.pending = Pending::Connect(ring.to_owned(), client);
                    Step { reply: None, effect: Effect::ReadSlot(path, client) }
                },
            },
        }
    }

    fn finish_connect(&mut self, ring: String, client: Client, owner: Option<u32>) -> (r: Step)
        requires
            old(self).wf(),
        ensures
            final(self).wf(),
            connected(*old(self), ring@, client, owner, *final(self), r),
    {
        match owner {
            Some(_) => {
                self.client_pid = Some(client.pid());
                record_connection(ring.as_str(), &mut self.connections, client);
                self.acknowledge()
            },
            None => self.fail_request("No such consumer slot"),
        }
    }

    /// `DISCONNECT ring role pid`: releases a reservation of this
    /// connection; without one, the slot is released when the ring file
    /// shows the pid in it.
    pub fn disconnect_client(&mut self, inventory: &RingInventory, ring: &str, connection_type: &str, pid: &str) -> (r: Step)
        requires
            old(self).wf(),
            inventory.wf(),
        ensures
            final(self).wf(),
            disconnect_outcome(*old(self), inventory@, ring@, connection_type@, pid@, *final(self), r),
    {
        if !is_local_peer(&self.peer) {
            return self.fail_request("DISCONNECT must be local");
        }
        let ring_name = strip_braces(ring);
        let pid_num = match parse_unsigned(pid, 0xffff_ffffu64) {
            Some(v) => v as u32,
            None => {
                let mut reason = pid.to_owned();
                reason.append(" - pid must parse as an unsigned integer");
                return self.fail_request(reason.as_str());
            },
        };
        match self.client_pid {
            Some(claimed) => {
                if claimed != pid_num {
                    return self.fail_request("attemped PID spoof");
                }
            },
            None => {},
        }
        let client = match parse_role(connection_type, pid_num) {
            Some(c) => c,
            None => {
                let reason = disconnect_role_failure_text(connection_type);
                return self.fail_request(reason.as_str());
            },
        };
        let path = compute_ring_buffer_path(self.directory.as_str(), ring_name.as_str());
        let reserved = match self.connections.get(ring_name.as_str()) {
            Some(registrations) => connection_exists(&client, registrations),
            None => false,
        };
        if reserved {
            self.client_pid = Some(pid_num);
            unrecord_connection(ring, &mut self.connections, client);
            self.pending = Pending::Idle;
            return Step { reply: Some(ok_reply()), effect: Effect::Free(path, client) };
        }
        if !inventory.contains(ring_name.as_str()) {
            let mut reason = ring_name.clone();
            reason.append(" is not a ring name registered to PID ");
            reason.append(pid);
            return self.fail_request(reason.as_str());
        }
        self.pending = Pending::Disconnect(ring.to_owned(), client);
        Step { reply: None, effect: Effect::ReadSlot(path, client) }
    }

    fn finish_disconnect(&mut self, ring: String, client: Client, owner: Option<u32>) -> (r: Step)
        requires
            old(self).wf(),
        ensures
            final(self).wf(),
            disconnected(*old(self), ring@, client, owner, *final(self), r),
    {
        let pid = client.pid();
        let matches = match owner {
            Some(p) => p == pid,
            None => false,
        };
        let ring_name = strip_braces(ring.as_str());
        if !matches {
            let reason = not_owner_text(&client, ring_name.as_str());
            return self.fail_request(reason.as_str());
        }
        let path = compute_ring_buffer_path(self.directory.as_str(), ring_name.as_str());
        self.client_pid = Some(pid);
        self.pending = Pending::Idle;
        Step { reply: Some(ok_reply()), effect: Effect::Free(path, client) }
    }

    /// `REMOTE name`: a remote peer gets the ring's data through a hoister
    /// that writes to this connection.
    pub fn hoist_data(&mut self, inventory: &RingInventory, name: &str) -> (r: Step)
        requires
            old(self).wf(),
            inventory.wf(),
        ensures
            final(self).wf(),
            remote_outcome(*old(self), inventory@, name@, *final(self), r),
    {
        if is_local_peer(&self.peer) {
            return self.fail_request("REMOTE must come from a remote host");
        }
        let ring = strip_braces(name);
        if !inventory.contains(ring.as_str()) {
            let mut reason = ring.clone();
            reason.append(" is not in the ring master's inventory");
            return self.fail_request(reason.as_str());
        }
        let mut args: Vec<String> = Vec::new();
        args.push("--directory".to_owned());
        args.push(self.directory.clone());
        args.push("--ring".to_owned());
        args.push(ring);
        args.push("--port".to_owned());
        args.push(decimal_string(self.portman as u64));
        args.push("--comment".to_owned());
        let mut comment = "Hoisting to ".to_owned();
        comment.append(self.peer_text.as_str());
        args.push(comment);
        assert(views(args@) =~= hoist_args(*old(self), unbraced(name@)));
        self.pending = Pending::Closed;
        Step { reply: Some("OK BINARY FOLLOWS\r\n".to_owned()), effect: Effect::Hoist(args) }
    }

    /// `LIST`: asks for the usage of every known ring.
    pub fn list_request(&mut self, inventory: &RingInventory) -> (r: Step)
        requires
            old(self).wf(),
            inventory.wf(),
        ensures
            final(self).wf(),
            list_started(*old(self), inventory@, *final(self), r),
    {
        let names = inventory.names();
        let mut paths: Vec<String> = Vec::new();
        let mut i: usize = 0;
        while i < names.len()
            invariant
                0 <= i <= names@.len(),
                paths@.len() == i,
                forall|j: int|
                    0 <= j < i ==> #[trigger] paths@[j]@ == joined(self.directory@, names@[j]@),
            decreases names@.len() - i,
        {
            let p = compute_ring_buffer_path(self.directory.as_str(), names[i].as_str());
            paths.push(p);
            i = i + 1;
        }
        self.pending = Pending::List(names);
        Step { reply: None, effect: Effect::Survey(paths) }
    }

    /// Replies to a `LIST` with the surveyed usage of each ring, drops
    /// from the inventory the rings whose files no longer open, and closes.
    pub fn list_rings(&mut self, inventory: &mut RingInventory, names: &Vec<String>, infos: &Vec<Option<RingInfo>>) -> (r: Step)
        requires
            old(self).wf(),
            old(inventory).wf(),
        ensures
            final(self).wf(),
            final(inventory).wf(),
            listed(*old(self), old(inventory)@, views(names@), infos@, *final(self), final(inventory)@, r),
    {
        let mut listing = TclList::new();
        let mut i: usize = 0;
        while i < names.len()
            invariant
                0 <= i <= names@.len(),
                listing@ == descriptions(views(names@).subrange(0, i as int), infos@),
            decreases names@.len() - i,
        {
            assert(views(names@).subrange(0, i + 1).drop_last() =~= views(names@).subrange(0, i as int));
            assert(views(names@).subrange(0, i + 1)[i as int] == names@[i as int]@);
            if i < infos.len() {
                match &infos[i] {
                    Some(info) => {
                        let text = describe_ring(names[i].as_str(), info);
                        listing.add_element(text.as_str());
                    },
                    None => {},
                }
            }
            i = i + 1;
        }
        assert(views(names@).subrange(0, i as int) =~= views(names@));
        let rendered = listing.to_string();
        let n = rendered.as_str().unicode_len();
        let inner = rendered.as_str().substring_char(1, n - 1);
        assert(inner@ =~= body(listing@));
        let mut reply = ok_reply();
        reply.append(inner);
        push_char(&mut reply, '\r');
        push_char(&mut reply, '\n');
        assert(reply@ =~= listing_text(views(names@), infos@));
        let ghost start = inventory@;
        let mut j: usize = 0;
        while j < names.len()
            invariant
                0 <= j <= names@.len(),
                inventory.wf(),
                inventory@ == start.remove_keys(gone(views(names@).subrange(0, j as int), infos@)),
            decreases names@.len() - j,
        {
            let ghost before = inventory@;
            let missing = j >= infos.len() || infos[j].is_none();
            if missing {
                inventory.remove(names[j].as_str());
            }
            let ghost pre = gone(views(names@).subrange(0, j as int), infos@);
            let ghost post = gone(views(names@).subrange(0, j + 1), infos@);
            assert(views(names@)[j as int] == names@[j as int]@);
            if missing {
                assert(post =~= pre.insert(names@[j as int]@)) by {
                    assert forall|k: Seq<char>| post.contains(k) <==> pre.insert(names@[j as int]@).contains(k) by {
                        if post.contains(k) && k != names@[j as int]@ {
                            let q = choose|q: int| 0 <= q < j + 1 && views(names@).subrange(0, j + 1)[q] == k && (q >= infos@.len() || infos@[q] is None);
                            assert(views(names@).subrange(0, j as int)[q] == k);
                        }
                        if pre.contains(k) {
                            let q = choose|q: int| 0 <= q < j && views(names@).subrange(0, j as int)[q] == k && (q >= infos@.len() || infos@[q] is None);
                            assert(views(names@).subrange(0, j + 1)[q] == k);
                        }
                        if k == names@[j as int]@ {
                            assert(views(names@).subrange(0, j + 1)[j as int] == k);
                        }
                    }
                }
                assert(inventory@ =~= start.remove_keys(post));
            } else {
                assert(post =~= pre) by {
                    assert forall|k: Seq<char>| post.contains(k) <==> pre.contains(k) by {
                        if post.contains(k) {
                            let q = choose|q: int| 0 <= q < j + 1 && views(names@).subrange(0, j + 1)[q] == k && (q >= infos@.len() || infos@[q] is None);
                            assert(q != j);
                            assert(views(names@).subrange(0, j as int)[q] == k);
                        }
                        if pre.contains(k) {
                            let q = choose|q: int| 0 <= q < j && views(names@).subrange(0, j as int)[q] == k && (q >= infos@.len() || infos@[q] is None);
                            assert(views(names@).subrange(0, j + 1)[q] == k);
                        }
                    }
                }
            }
            j = j + 1;
        }
        assert(views(names@).subrange(0, j as int) =~= views(names@));
        self.pending = Pending::Closed;
        Step { reply: Some(reply), effect: Effect::Close }
    }

    /// Handles one request line.
    pub fn handle_request(&mut self, inventory: &mut RingInventory, line: &str) -> (r: Step)
        requires
            old(self).wf(),
            old(inventory).wf(),
        ensures
            final(self).wf(),
            final(inventory).wf(),
            line_outcome(*old(self), old(inventory)@, line@, *final(self), final(inventory)@, r),
    {
        let request = line_to_words(line);
        let ghost ws = words(line@);
        assert(views(request@) == ws);
        if request.len() == 0 {
            return self.fail_request("Empty request");
        }
        assert(request@[0]@ == ws[0]);
        let n = request.len();
        match verb(request[0].as_str()) {
            Verb::List => {
                if n != 1 {
                    self.fail_request("LIST does not take any parameters")
                } else {
                    self.list_request(inventory)
                }
            },
            Verb::Register => {
                if n != 2 {
                    self.fail_request("REGISTER must have only a ring name parameter")
                } else {
                    assert(request@[1]@ == ws[1]);
                    self.register_ring(inventory, request[1].as_str())
                }
            },
            Verb::Unregister => {
                if n != 2 {
                    self.fail_request("UNREGISTER must have only a ring name parameter")
                } else {
                    assert(request@[1]@ == ws[1]);
                    self.unregister_ring(inventory, request[1].as_str())
                }
            },
            Verb::Connect => {
                if n < 4 {
                    self.fail_request("Unregister must have at least name, type, pid")
                } else {
                    assert(request@[1]@ == ws[1] && request@[2]@ == ws[2] && request@[3]@ == ws[3]);
                    self.connect_client(
                        inventory,
                        request[1].as_str(),
                        request[2].as_str(),
                        request[3].as_str(),
                    )
                }
            },
            Verb::Disconnect => {
                if n != 4 {
                    self.fail_request("Invalid request length")
                } else {
                    assert(request@[1]@ == ws[1] && request@[2]@ == ws[2] && request@[3]@ == ws[3]);
                    self.disconnect_client(
                        inventory,
                        request[1].as_str(),
                        request[2].as_str(),
                        request[3].as_str(),
                    )
                }
            },
            Verb::Remote => {
                if n != 2 {
                    self.fail_request("Invalid request length")
                } else {
                    assert(request@[1]@ == ws[1]);
                    self.hoist_data(inventory, request[1].as_str())
                }
            },
            Verb::Unknown => self.fail_request("Invalid Request"),
        }
    }

    fn abandon(&mut self) -> (r: Step)
        requires
            old(self).wf(),
        ensures
            r.reply is None,
            r.effect is Close,
            closed_after(*old(self), *final(self)),
    {
        self.pending = Pending::Closed;
        Step { reply: None, effect: Effect::Close }
    }

    /// Takes one event and says what to write and do next.
    pub fn step(&mut self, inventory: &mut RingInventory, event: Event) -> (r: Step)
        requires
            old(self).wf(),
            old(inventory).wf(),
        ensures
            final(self).wf(),
            final(inventory).wf(),
            stepped(*old(self), old(inventory)@, event, *final(self), final(inventory)@, r),
    {
        let mut pending = Pending::Idle;
        core::mem::swap(&mut pending, &mut self.pending);
        match pending {
            Pending::Idle => match event {
                Event::Request(line) => self.handle_request(inventory, line.as_str()),
                Event::Eof => self.fail_request("Empty request"),
                _ => self.abandon(),
            },
            Pending::Register(name) => match event {
                Event::RingOpened(ok) => self.finish_register(inventory, name, ok),
                _ => self.abandon(),
            },
            Pending::Connect(ring, client) => match event {
                Event::SlotOwner(owner) => self.finish_connect(ring, client, owner),
                _ => self.abandon(),
            },
            Pending::Disconnect(ring, client) => match event {
                Event::SlotOwner(owner) => self.finish_disconnect(ring, client, owner),
                _ => self.abandon(),
            },
            Pending::List(names) => match event {
                Event::Surveyed(infos) => self.list_rings(inventory, &names, &infos),
                _ => self.abandon(),
            },
            Pending::Closed => self.abandon(),
        }
    }

    /// The slots to release when the connection ends: one entry, ring
    /// file and client, for each reservation still held.
    pub fn releases(&self) -> (r: Vec<(String, Client)>)
        requires
            self.wf(),
        ensures
            forall|k: Seq<char>, c: Client| #[trigger]
                held(self.connections@, k).contains(c) ==> covers(r@, ring_path(*self, k), c),
            forall|q: int| 0 <= q < r@.len() ==> reserved_slot(*self, #[trigger] r@[q]),
    {
        let names = self.connections.names();
        let mut out: Vec<(String, Client)> = Vec::new();
        let mut i: usize = 0;
        while i < names.len()
            invariant
                0 <= i <= names@.len(),
                self.wf(),
                views(names@).to_set() == self.connections@.dom(),
                forall|a: int, c: Client|
                    0 <= a < i && #[trigger] held(self.connections@, names@[a]@).contains(c) ==> covers(
                        out@,
                        ring_path(*self, names@[a]@),
                        c,
                    ),
                forall|q: int| 0 <= q < out@.len() ==> reserved_slot(*self, #[trigger] out@[q]),
            decreases names@.len() - i,
        {
            let ghost k = names@[i as int]@;
            let path = compute_ring_buffer_path(self.directory.as_str(), names[i].as_str());
            match self.connections.get(names[i].as_str()) {
                Some(list) => {
                    let ghost base = out@;
                    let mut j: usize = 0;
                    while j < list.len()
                        invariant
                            0 <= j <= list@.len(),
                            self.wf(),
                            list@ == held(self.connections@, k),
                            path@ == ring_path(*self, k),
                            out@.len() == base.len() + j,
                            forall|q: int| 0 <= q < base.len() ==> #[trigger] out@[q] == base[q],
                            forall|q: int|
                                0 <= q < j ==> #[trigger] out@[base.len() + q].0@ == path@
                                    && out@[base.len() + q].1 == list@[q],
                            forall|q: int| 0 <= q < out@.len() ==> reserved_slot(*self, #[trigger] out@[q]),
                        decreases list@.len() - j,
                    {
                        let ghost before = out@;
                        out.push((path.clone(), list[j]));
                        assert(held(self.connections@, k).contains(list@[j as int]));
                        assert forall|q: int| 0 <= q < out@.len() implies reserved_slot(*self, #[trigger] out@[q]) by {
                            if q < before.len() {
                                assert(out@[q] == before[q]);
                            } else {
                                assert(held(self.connections@, k).contains(out@[q].1));
                            }
                        }
                        j = j + 1;
                    }
                    assert forall|a: int, c: Client|
                        0 <= a < i + 1 && #[trigger] held(self.connections@, names@[a]@).contains(c) implies covers(
                            out@,
                            ring_path(*self, names@[a]@),
                            c,
                        ) by {
                        if a < i {
                            let q0 = choose|q: int| 0 <= q < base.len() && #[trigger] base[q].0@ == ring_path(*self, names@[a]@) && base[q].1 == c;
                            assert(out@[q0] == base[q0]);
                        } else {
                            let p = choose|p: int| 0 <= p < list@.len() && list@[p] == c;
                            assert(out@[base.len() + p].0@ == path@);
                        }
                    }
                },
                None => {
                    assert(!self.connections@.contains_key(k));
                },
            }
            i = i + 1;
        }
        assert forall|k: Seq<char>, c: Client| #[trigger]
            held(self.connections@, k).contains(c) implies covers(out@, ring_path(*self, k), c) by {
            assert(self.connections@.dom().contains(k));
            assert(views(names@).to_set().contains(k));
            let a = choose|a: int| 0 <= a < views(names@).len() && views(names@)[a] == k;
            assert(names@[a]@ == k);
        }
        out
    }
}

} // verus!
