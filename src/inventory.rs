//! The ring inventory: every ring the daemon knows, by name, with what is
//! recorded about it.
use vstd::prelude::*;
use crate::paths::{basename, filename_from_path};
use crate::rings::{Client, ClientMonitorInfo, RingBufferInfo};
use crate::table::NameTable;
use crate::text::views;

verus! {

/// The pid a ring file's slot holds when no process owns it.
pub const UNUSED_ENTRY: u32 = 0xffffffff;

/// The known rings, keyed by ring name (the basename of the ring's file).
pub type RingInventory = NameTable<RingBufferInfo>;

/// The pids found in a ring file's slots: the producer's and one per
/// consumer slot, in slot order, `UNUSED_ENTRY` where a slot is free.
pub struct SlotSnapshot {
    pub producer: u32,
    pub consumers: Vec<u32>,
}

/// The record of a client found in a ring file rather than connected
/// through this daemon: no connection watches it.
pub open spec fn unmonitored(c: Client) -> ClientMonitorInfo {
    ClientMonitorInfo { should_run: true, client_info: c }
}

/// `m` with a record for each occupied consumer slot of `consumers`, in
/// slot order.
pub open spec fn with_consumers(m: Map<u32, ClientMonitorInfo>, consumers: Seq<u32>) -> Map<
    u32,
    ClientMonitorInfo,
>
    decreases consumers.len(),
{
    if consumers.len() == 0 {
        m
    } else {
        let before = with_consumers(m, consumers.drop_last());
        let pid = consumers.last();
        if pid == UNUSED_ENTRY {
            before
        } else {
            before.insert(
                pid,
                unmonitored(Client::Consumer { pid, slot: (consumers.len() - 1) as u32 }),
            )
        }
    }
}

/// `m` with a record for the producer, if its slot is occupied, then for
/// each occupied consumer slot.
pub open spec fn occupied_clients(m: Map<u32, ClientMonitorInfo>, producer: u32, consumers: Seq<u32>) -> Map<
    u32,
    ClientMonitorInfo,
> {
    let with_producer = if producer == UNUSED_ENTRY {
        m
    } else {
        m.insert(producer, unmonitored(Client::Producer { pid: producer }))
    };
    with_consumers(with_producer, consumers)
}

/// Records a ring file under its basename, replacing any ring of that name.
pub fn add_ring(name: &str, list: &mut RingInventory)
    requires
        old(list).wf(),
    ensures
        final(list).wf(),
        final(list)@.dom() == old(list)@.dom().insert(basename(name@)),
        final(list)@[basename(name@)].ring_file@ == name@,
        final(list)@[basename(name@)].clients() == Map::<u32, ClientMonitorInfo>::empty(),
        final(list)@.remove(basename(name@)) == old(list)@.remove(basename(name@)),
{
    let filename = filename_from_path(name);
    list.insert(filename, RingBufferInfo::new(name));
    assert(list@.remove(basename(name@)) =~= old(list)@.remove(basename(name@)));
}

/// The inventory of the given ring files: each is recorded under its
/// basename, with no clients (of two files with one basename the later
/// one stays).
pub fn inventory_rings(ring_files: &Vec<String>) -> (r: RingInventory)
    ensures
        r.wf(),
        forall|k: Seq<char>|
            r@.contains_key(k) <==> exists|i: int|
                0 <= i < ring_files@.len() && basename(#[trigger] ring_files@[i]@) == k,
        forall|k: Seq<char>| #[trigger]
            r@.contains_key(k) ==> basename(r@[k].ring_file@) == k && views(ring_files@).contains(
                r@[k].ring_file@,
            ) && r@[k].clients() == Map::<u32, ClientMonitorInfo>::empty(),
{
    let mut result = RingInventory::new();
    let mut i: usize = 0;
    while i < ring_files.len()
        invariant
            0 <= i <= ring_files@.len(),
            result.wf(),
            forall|k: Seq<char>|
                result@.contains_key(k) <==> exists|j: int|
                    0 <= j < i && basename(#[trigger] ring_files@[j]@) == k,
            forall|k: Seq<char>| #[trigger]
                result@.contains_key(k) ==> basename(result@[k].ring_file@) == k && views(
                    ring_files@,
                ).contains(result@[k].ring_file@) && result@[k].clients() == Map::<
                    u32,
                    ClientMonitorInfo,
                >::empty(),
        decreases ring_files@.len() - i,
    {
        let ghost before = result@;
        let ghost key = basename(ring_files@[i as int]@);
        add_ring(ring_files[i].as_str(), &mut result);
        assert(views(ring_files@)[i as int] == ring_files@[i as int]@);
        assert forall|k: Seq<char>|
            result@.contains_key(k) <==> exists|j: int|
                0 <= j < i + 1 && basename(#[trigger] ring_files@[j]@) == k by {
            if k != key && result@.contains_key(k) {
                assert(before.contains_key(k));
            }
            if k != key && exists|j: int| 0 <= j < i + 1 && basename(#[trigger] ring_files@[j]@) == k {
                let j = choose|j: int| 0 <= j < i + 1 && basename(#[trigger] ring_files@[j]@) == k;
                assert(j < i);
            }
        }
        assert forall|k: Seq<char>| #[trigger] result@.contains_key(k) implies basename(
            result@[k].ring_file@,
        ) == k && views(ring_files@).contains(result@[k].ring_file@) && result@[k].clients()
            == Map::<u32, ClientMonitorInfo>::empty() by {
            if k != key {
                assert(result@.remove(key)[k] == before.remove(key)[k]);
            }
        }
        i = i + 1;
    }
    result
}

/// Records, against one ring, the clients that occupy its slots.
pub fn load_ring_clients(info: &mut RingBufferInfo, snapshot: &SlotSnapshot)
    requires
        snapshot.consumers@.len() <= u32::MAX,
    ensures
        final(info).ring_file == old(info).ring_file,
        final(info).clients() == occupied_clients(
            old(info).clients(),
            snapshot.producer,
            snapshot.consumers@,
        ),
{
    if snapshot.producer != UNUSED_ENTRY {
        info.add_client(ClientMonitorInfo::new(Client::Producer { pid: snapshot.producer }));
    }
    let ghost start = info.clients();
    let mut slot: usize = 0;
    while slot < snapshot.consumers.len()
        invariant
            0 <= slot <= snapshot.consumers@.len(),
            snapshot.consumers@.len() <= u32::MAX,
            info.ring_file == old(info).ring_file,
            start == (if snapshot.producer == UNUSED_ENTRY {
                old(info).clients()
            } else {
                old(info).clients().insert(
                    snapshot.producer,
                    unmonitored(Client::Producer { pid: snapshot.producer }),
                )
            }),
            info.clients() == with_consumers(start, snapshot.consumers@.subrange(0, slot as int)),
        decreases snapshot.consumers@.len() - slot,
    {
        let pid = snapshot.consumers[slot];
        let ghost next = snapshot.consumers@.subrange(0, slot + 1);
        assert(next.drop_last() =~= snapshot.consumers@.subrange(0, slot as int));
        if pid != UNUSED_ENTRY {
            info.add_client(ClientMonitorInfo::new(Client::Consumer { pid, slot: slot as u32 }));
        }
        slot = slot + 1;
    }
    assert(snapshot.consumers@.subrange(0, slot as int) =~= snapshot.consumers@);
}

/// Re-derives one ring's clients from its slots at start-up: with a
/// snapshot the ring gets a record for each occupied slot; without one
/// (its file no longer opens as a ring) it leaves the inventory.
pub fn load_initial_clients(inventory: &mut RingInventory, name: &str, snapshot: Option<SlotSnapshot>)
    requires
        old(inventory).wf(),
        match snapshot {
            Some(s) => s.consumers@.len() <= u32::MAX,
            None => true,
        },
    ensures
        final(inventory).wf(),
        match snapshot {
            None => final(inventory)@ == old(inventory)@.remove(name@),
            Some(s) => {
                &&& final(inventory)@.dom() == old(inventory)@.dom()
                &&& final(inventory)@.remove(name@) == old(inventory)@.remove(name@)
                &&& old(inventory)@.contains_key(name@) ==> {
                    &&& final(inventory)@[name@].ring_file == old(inventory)@[name@].ring_file
                    &&& final(inventory)@[name@].clients() == occupied_clients(
                        old(inventory)@[name@].clients(),
                        s.producer,
                        s.consumers@,
                    )
                }
            },
        },
{
    match snapshot {
        None => {
            inventory.remove(name);
        },
        Some(s) => {
            match inventory.remove(name) {
                Some(mut info) => {
                    load_ring_clients(&mut info, &s);
                    inventory.insert(name.to_owned(), info);
                    assert(inventory@.dom() =~= old(inventory)@.dom());
                    assert(inventory@.remove(name@) =~= old(inventory)@.remove(name@));
                },
                None => {
                    assert(inventory@ =~= old(inventory)@);
                },
            }
        },
    }
}

} // verus!
