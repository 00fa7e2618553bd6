//! What holds of every session, proved from the step contracts.
use vstd::prelude::*;
use crate::connections::{first_at, held, recorded, unrecorded};
use crate::listing::{RingInfo, ring_description};
use crate::protocol::{is_loopback, ok_text, role_client, verb_of, Verb};
use crate::rings::{Client, RingBufferInfo};
use crate::session::{
    Event,
    Pending,
    Session,
    Step,
    acked,
    closed_after,
    connect_outcome,
    connected,
    descriptions,
    disconnect_outcome,
    gone,
    list_started,
    failed,
    frees,
    line_outcome,
    register_outcome,
    registered,
    ring_path,
    says,
    spoofed,
    stepped,
    unregister_outcome,
};
use crate::text::{unbraced, unsigned_value, views, words};

verus! {

/// A session waiting on a slot read holds a client whose pid the
/// connection may still use.
pub open spec fn consistent(s: Session) -> bool {
    match s.pending {
        Pending::Connect(_, c) => !spoofed(s, c.spec_pid()),
        Pending::Disconnect(_, c) => !spoofed(s, c.spec_pid()),
        _ => true,
    }
}

proof fn lemma_role_pid(role: Seq<char>, pid: u32)
    ensures
        role_client(role, pid) matches Some(c) ==> c.spec_pid() == pid,
{
}

/// A connection keeps the pid it first claimed: once a step has set it,
/// every later step leaves it as it is, so all the pids that requests on
/// one connection use successfully are equal.
pub proof fn lemma_claimed_pid_is_fixed(
    s: Session,
    inv: Map<Seq<char>, RingBufferInfo>,
    event: Event,
    t: Session,
    inv2: Map<Seq<char>, RingBufferInfo>,
    r: Step,
)
    requires
        consistent(s),
        stepped(s, inv, event, t, inv2, r),
    ensures
        consistent(t),
        s.client_pid is Some ==> t.client_pid == s.client_pid,
{
    match s.pending {
        Pending::Idle => match event {
            Event::Request(line) => {
                let ws = words(line@);
                if ws.len() >= 4 {
                    if let Some(v) = unsigned_value(ws[3], u32::MAX as nat) {
                        lemma_role_pid(ws[2], v as u32);
                    }
                }
            },
            _ => {},
        },
        _ => {},
    }
}

/// A successful `CONNECT` reserves the client on the connection under the
/// ring's name, and the connection's pid becomes the client's.
pub proof fn lemma_connect_reserves(
    s: Session,
    inv: Map<Seq<char>, RingBufferInfo>,
    ring: Seq<char>,
    role: Seq<char>,
    pid: Seq<char>,
    t: Session,
    r: Step,
)
    requires
        connect_outcome(s, inv, ring, role, pid, t, r),
        acked(r),
    ensures
        unsigned_value(pid, u32::MAX as nat) is Some,
        role_client(role, unsigned_value(pid, u32::MAX as nat)->0 as u32) matches Some(c) && held(
            t.connections@,
            unbraced(ring),
        ).contains(c) && t.client_pid == Some(c.spec_pid()),
{
    let v = unsigned_value(pid, u32::MAX as nat)->0 as u32;
    lemma_role_pid(role, v);
    let c = role_client(role, v)->0;
    let k = unbraced(ring);
    assert(held(t.connections@, k) == held(s.connections@, k).push(c));
    assert(held(t.connections@, k)[held(s.connections@, k).len() as int] == c);
}

/// A `CONNECT` of a consumer whose slot was read and found is reserved
/// on the connection under the ring's name.
pub proof fn lemma_consumer_connect_reserves(
    s: Session,
    ring: Seq<char>,
    c: Client,
    owner: Option<u32>,
    t: Session,
    r: Step,
)
    requires
        connected(s, ring, c, owner, t, r),
        owner is Some,
    ensures
        acked(r),
        held(t.connections@, unbraced(ring)).contains(c),
        t.client_pid == Some(c.spec_pid()),
{
    let k = unbraced(ring);
    assert(held(t.connections@, k)[held(s.connections@, k).len() as int] == c);
}

/// No step loses a reservation without freeing its slot: a client held on
/// a ring before the step is still held after it, or the step frees that
/// client's slot in that ring's file. Together with `Session::releases`,
/// which lists every reservation still held when the connection ends,
/// and `Client::holds`, which says when such a slot is to be freed (its
/// occupant is still the client), every slot reserved on a connection is
/// freed by the time it is over, unless another process took it since.
pub proof fn lemma_reservation_kept_or_freed(
    s: Session,
    inv: Map<Seq<char>, RingBufferInfo>,
    event: Event,
    t: Session,
    inv2: Map<Seq<char>, RingBufferInfo>,
    r: Step,
    k: Seq<char>,
    c: Client,
)
    requires
        stepped(s, inv, event, t, inv2, r),
        held(s.connections@, k).contains(c),
    ensures
        held(t.connections@, k).contains(c) || frees(r, ring_path(s, k), c),
{
    let before = s.connections@;
    let after = t.connections@;
    let i = choose|i: int| 0 <= i < held(before, k).len() && held(before, k)[i] == c;
    if after == before {
    } else if exists|ring: Seq<char>, d: Client| recorded(before, after, ring, d) {
        let (ring, d) = choose|ring: Seq<char>, d: Client| recorded(before, after, ring, d);
        if k == unbraced(ring) {
            assert(held(after, k)[i] == c);
        } else {
            assert(after.remove(unbraced(ring)).contains_key(k) == before.remove(unbraced(ring)).contains_key(k));
            assert(after.remove(unbraced(ring))[k] == before.remove(unbraced(ring))[k]);
        }
    } else {
        let (ring, d) = choose|ring: Seq<char>, d: Client|
            unrecorded(before, after, ring, d) && frees(r, ring_path(s, unbraced(ring)), d);
        if k == unbraced(ring) {
            if held(before, k).contains(d) {
                let j = choose|j: int|
                    first_at(held(before, k), d, j) && held(after, k) == held(before, k).remove(j);
                if i < j {
                    assert(held(after, k)[i] == c);
                } else if i > j {
                    assert(held(after, k)[i - 1] == c);
                }
            }
        } else {
            assert(after.remove(unbraced(ring)).contains_key(k) == before.remove(unbraced(ring)).contains_key(k));
            assert(after.remove(unbraced(ring))[k] == before.remove(unbraced(ring))[k]);
        }
    }
}


/// Every ring that a `LIST` reply describes was reached by the survey:
/// each description is that of a surveyed inventory name whose file
/// opened, under that name.
pub proof fn lemma_listed_rings_opened(names: Seq<Seq<char>>, infos: Seq<Option<RingInfo>>, j: int)
    requires
        0 <= j < descriptions(names, infos).len(),
    ensures
        exists|i: int|
            0 <= i < names.len() && i < infos.len() && #[trigger] infos[i] is Some
                && descriptions(names, infos)[j] == ring_description(names[i], infos[i]->0),
    decreases names.len(),
{
    let rest = names.drop_last();
    let last = names.len() - 1;
    if j < descriptions(rest, infos).len() {
        lemma_listed_rings_opened(rest, infos, j);
        let i = choose|i: int|
            0 <= i < rest.len() && i < infos.len() && #[trigger] infos[i] is Some
                && descriptions(rest, infos)[j] == ring_description(rest[i], infos[i]->0);
        assert(names[i] == rest[i]);
    } else {
        assert(last < infos.len() && infos[last] is Some);
    }
}

/// Every surveyed ring whose file opened is described in the `LIST`
/// reply, under its inventory name.
pub proof fn lemma_opened_rings_listed(names: Seq<Seq<char>>, infos: Seq<Option<RingInfo>>, i: int)
    requires
        0 <= i < names.len(),
        i < infos.len(),
        infos[i] is Some,
    ensures
        descriptions(names, infos).contains(ring_description(names[i], infos[i]->0)),
    decreases names.len(),
{
    let rest = names.drop_last();
    if i < names.len() - 1 {
        lemma_opened_rings_listed(rest, infos, i);
        assert(rest[i] == names[i]);
        let d = descriptions(rest, infos);
        let k = choose|k: int| 0 <= k < d.len() && d[k] == ring_description(rest[i], infos[i]->0);
        assert(descriptions(names, infos)[k] == d[k]);
    } else {
        let d = descriptions(names, infos);
        assert(d[d.len() - 1] == ring_description(names[i], infos[i]->0));
    }
}

/// A `LIST` surveys every ring the inventory holds when it is asked.
pub proof fn lemma_known_ring_surveyed(
    s: Session,
    inv: Map<Seq<char>, RingBufferInfo>,
    t: Session,
    r: Step,
    k: Seq<char>,
)
    requires
        list_started(s, inv, t, r),
        inv.contains_key(k),
    ensures
        t.pending matches Pending::List(names) && views(names@).contains(k),
{
    if let Pending::List(names) = t.pending {
        assert(views(names@).to_set().contains(k));
    }
}

/// A surveyed ring whose file opened stays in the inventory after the
/// `LIST`.
pub proof fn lemma_reached_ring_kept(names: Seq<Seq<char>>, infos: Seq<Option<RingInfo>>, i: int)
    requires
        names.no_duplicates(),
        0 <= i < names.len(),
        i < infos.len(),
        infos[i] is Some,
    ensures
        !gone(names, infos).contains(names[i]),
{
}

/// Registering a ring that is already known is acknowledged and leaves the
/// inventory as it was; a registration that succeeds leaves the ring
/// known. So a second `REGISTER` of a name answers `OK` and adds no entry.
pub proof fn lemma_register_twice(
    s: Session,
    inv: Map<Seq<char>, RingBufferInfo>,
    name: Seq<char>,
    opened: bool,
    t: Session,
    inv2: Map<Seq<char>, RingBufferInfo>,
    r: Step,
    u: Session,
    inv3: Map<Seq<char>, RingBufferInfo>,
    r2: Step,
)
    requires
        registered(s, inv, unbraced(name), opened, t, inv2, r),
        acked(r),
        register_outcome(t, inv2, name, u, inv3, r2),
        is_loopback(t.peer),
    ensures
        inv2.contains_key(unbraced(name)),
        acked(r2),
        inv3 == inv2,
{
}

/// A known ring registered again by a local peer: `OK`, inventory
/// unchanged.
pub proof fn lemma_register_known(
    s: Session,
    inv: Map<Seq<char>, RingBufferInfo>,
    name: Seq<char>,
    t: Session,
    inv2: Map<Seq<char>, RingBufferInfo>,
    r: Step,
)
    requires
        register_outcome(s, inv, name, t, inv2, r),
        is_loopback(s.peer),
        inv.contains_key(unbraced(name)),
    ensures
        acked(r),
        inv2 == inv,
{
}

/// Unregistering a name the inventory does not hold answers `OK` and
/// changes nothing.
pub proof fn lemma_unregister_unknown(
    s: Session,
    inv: Map<Seq<char>, RingBufferInfo>,
    name: Seq<char>,
    t: Session,
    inv2: Map<Seq<char>, RingBufferInfo>,
    r: Step,
)
    requires
        unregister_outcome(s, inv, name, t, inv2, r),
        is_loopback(s.peer),
        !inv.contains_key(unbraced(name)),
    ensures
        acked(r),
        inv2 == inv,
{
    assert(inv.remove(unbraced(name)) =~= inv);
}

/// A `DISCONNECT` with the same ring, role and pid as a reservation that a
/// `CONNECT` made on the connection answers `OK` and frees that slot.
pub proof fn lemma_connect_then_disconnect(
    s: Session,
    inv: Map<Seq<char>, RingBufferInfo>,
    ring: Seq<char>,
    role: Seq<char>,
    pid: Seq<char>,
    t: Session,
    r: Step,
    inv2: Map<Seq<char>, RingBufferInfo>,
    u: Session,
    r2: Step,
)
    requires
        connect_outcome(s, inv, ring, role, pid, t, r),
        acked(r),
        disconnect_outcome(t, inv2, ring, role, pid, u, r2),
    ensures
        says(r2, ok_text()),
        role_client(role, unsigned_value(pid, u32::MAX as nat)->0 as u32) matches Some(c) && frees(
            r2,
            ring_path(s, unbraced(ring)),
            c,
        ),
{
    lemma_connect_reserves(s, inv, ring, role, pid, t, r);
}

/// The same for a consumer, whose `CONNECT` is acknowledged once its slot
/// has been found.
pub proof fn lemma_consumer_connect_then_disconnect(
    s: Session,
    ring: Seq<char>,
    c: Client,
    owner: Option<u32>,
    t: Session,
    r: Step,
    inv: Map<Seq<char>, RingBufferInfo>,
    role: Seq<char>,
    pid: Seq<char>,
    u: Session,
    r2: Step,
)
    requires
        connected(s, ring, c, owner, t, r),
        owner is Some,
        unsigned_value(pid, u32::MAX as nat) == Some(c.spec_pid() as nat),
        role_client(role, c.spec_pid()) == Some(c),
        is_loopback(t.peer),
        disconnect_outcome(t, inv, ring, role, pid, u, r2),
    ensures
        says(r2, ok_text()),
        frees(r2, ring_path(s, unbraced(ring)), c),
{
    lemma_consumer_connect_reserves(s, ring, c, owner, t, r);
}

/// A peer that is not local is refused `CONNECT`, `DISCONNECT`,
/// `REGISTER` and `UNREGISTER`: the reply is a failure and the connection
/// closes.
pub proof fn lemma_remote_peer_refused(
    s: Session,
    inv: Map<Seq<char>, RingBufferInfo>,
    line: Seq<char>,
    t: Session,
    inv2: Map<Seq<char>, RingBufferInfo>,
    r: Step,
)
    requires
        line_outcome(s, inv, line, t, inv2, r),
        !is_loopback(s.peer),
        words(line).len() > 0,
        verb_of(words(line)[0]) == Verb::Connect || verb_of(words(line)[0]) == Verb::Disconnect
            || verb_of(words(line)[0]) == Verb::Register || verb_of(words(line)[0]) == Verb::Unregister,
    ensures
        exists|reason: Seq<char>| failed(r, reason),
        closed_after(s, t),
        inv2 == inv,
{
    let ws = words(line);
    match verb_of(ws[0]) {
        Verb::Connect => if ws.len() < 4 {
            assert(failed(r, "Unregister must have at least name, type, pid"@));
        } else {
            assert(failed(r, "CONNECT must be from a local process"@));
        },
        Verb::Disconnect => if ws.len() != 4 {
            assert(failed(r, "Invalid request length"@));
        } else {
            assert(failed(r, "DISCONNECT must be local"@));
        },
        Verb::Register => if ws.len() != 2 {
            assert(failed(r, "REGISTER must have only a ring name parameter"@));
        } else {
            assert(failed(r, "REGISTER Must come from a local host"@));
        },
        _ => if ws.len() != 2 {
            assert(failed(r, "UNREGISTER must have only a ring name parameter"@));
        } else {
            assert(failed(r, "UNREGISTER request only legal from local peers"@));
        },
    }
}

/// A consumer is never acknowledged by `CONNECT` alone: its slot is read
/// first, and a slot that does not exist (a slot number at or beyond the
/// ring's consumer count) fails the request and closes the connection.
pub proof fn lemma_consumer_slot_checked(
    s: Session,
    inv: Map<Seq<char>, RingBufferInfo>,
    ring: Seq<char>,
    role: Seq<char>,
    pid: Seq<char>,
    t: Session,
    r: Step,
    u: Session,
    r2: Step,
)
    requires
        connect_outcome(s, inv, ring, role, pid, t, r),
        unsigned_value(pid, u32::MAX as nat) is Some,
        role_client(role, unsigned_value(pid, u32::MAX as nat)->0 as u32) matches Some(
            Client::Consumer { .. },
        ),
        t.pending matches Pending::Connect(w, c) ==> connected(t, w@, c, None, u, r2),
    ensures
        !acked(r),
        t.pending is Connect ==> failed(r2, "No such consumer slot"@) && closed_after(t, u),
{
}

/// An empty request line (or one of spaces only) fails with
/// `Empty request` and closes the connection.
pub proof fn lemma_empty_request(
    s: Session,
    inv: Map<Seq<char>, RingBufferInfo>,
    line: Seq<char>,
    t: Session,
    inv2: Map<Seq<char>, RingBufferInfo>,
    r: Step,
)
    requires
        line_outcome(s, inv, line, t, inv2, r),
        words(line).len() == 0,
    ensures
        failed(r, "Empty request"@),
        closed_after(s, t),
        inv2 == inv,
{
}

} // verus!
