//! The description of each ring in a `LIST` reply.
use vstd::prelude::*;
use crate::inventory::UNUSED_ENTRY;
use crate::tcllist::{TclList, rendered};
use crate::text::{decimal, decimal_string};

verus! {

/// What one consumer slot in use shows: its pid and the bytes waiting for
/// it.
pub struct ConsumerUsage {
    pub pid: u32,
    pub available: usize,
}

/// The usage of a ring as its header shows it.
pub struct RingStatus {
    pub producer_pid: u32,
    pub free_space: usize,
    pub max_queued: usize,
    pub consumer_usage: Vec<ConsumerUsage>,
}

/// Everything a `LIST` reply says of one ring.
pub struct RingInfo {
    pub name: String,
    pub size: usize,
    pub max_consumers: usize,
    pub min_get: usize,
    pub info: RingStatus,
}

/// The fewest bytes waiting for any consumer, 0 when there is none.
pub open spec fn min_available(c: Seq<ConsumerUsage>) -> nat
    decreases c.len(),
{
    if c.len() == 0 {
        0
    } else if c.len() == 1 {
        c[0].available as nat
    } else {
        let m = min_available(c.drop_last());
        let a = c.last().available as nat;
        if a < m {
            a
        } else {
            m
        }
    }
}

/// The producer's pid as listed: `-1` when the slot is free.
pub open spec fn producer_text(pid: u32) -> Seq<char> {
    if pid == UNUSED_ENTRY {
        seq!['-', '1']
    } else {
        decimal(pid as nat)
    }
}

/// One `{pid available}` entry per consumer.
pub open spec fn consumer_entries(c: Seq<ConsumerUsage>) -> Seq<Seq<char>> {
    Seq::new(
        c.len(),
        |i: int| rendered(seq![decimal(c[i].pid as nat), decimal(c[i].available as nat)]),
    )
}

/// The description of the ring `name`: `{name {size free max_consumers
/// producer max_queued min_get {consumers}}}`, in list form.
pub open spec fn ring_description(name: Seq<char>, info: RingInfo) -> Seq<char> {
    rendered(
        seq![
            name,
            rendered(
                seq![
                    decimal(info.size as nat),
                    decimal(info.info.free_space as nat),
                    decimal(info.max_consumers as nat),
                    producer_text(info.info.producer_pid),
                    decimal(info.info.max_queued as nat),
                    decimal(info.min_get as nat),
                    rendered(consumer_entries(info.info.consumer_usage@)),
                ],
            ),
        ],
    )
}

/// The fewest bytes that any consumer can get, or 0 without consumers.
pub fn min_gettable(status: &RingStatus) -> (r: usize)
    ensures
        r == min_available(status.consumer_usage@),
{
    let c = &status.consumer_usage;
    if c.len() == 0 {
        return 0;
    }
    let mut result = c[0].available;
    let mut i: usize = 1;
    while i < c.len()
        invariant
            1 <= i <= c@.len(),
            c@ == status.consumer_usage@,
            result == min_available(c@.subrange(0, i as int)),
        decreases c@.len() - i,
    {
        assert(c@.subrange(0, i + 1).drop_last() =~= c@.subrange(0, i as int));
        if c[i].available < result {
            result = c[i].available;
        }
        i = i + 1;
    }
    assert(c@.subrange(0, i as int) =~= c@);
    result
}

/// Writes the description of one ring, under the name it carries.
pub fn format_ring_info(info: &RingInfo) -> (r: String)
    ensures
        r@ == ring_description(info.name@, *info),
{
    describe_ring(info.name.as_str(), info)
}

/// Writes the description of the ring `name` from its usage.
pub fn describe_ring(name: &str, info: &RingInfo) -> (r: String)
    ensures
        r@ == ring_description(name@, *info),
{
    let mut ring_info = TclList::new();
    let size = decimal_string(info.size as u64);
    let free = decimal_string(info.info.free_space as u64);
    let maxc = decimal_string(info.max_consumers as u64);
    ring_info.add_element(size.as_str()).add_element(free.as_str()).add_element(maxc.as_str());
    if info.info.producer_pid == UNUSED_ENTRY {
        let minus_one = "-1";
        proof {
            reveal_strlit("-1");
        }
        assert(minus_one@ =~= seq!['-', '1']);
        ring_info.add_element(minus_one);
    } else {
        let pid = decimal_string(info.info.producer_pid as u64);
        ring_info.add_element(pid.as_str());
    }
    let queued = decimal_string(info.info.max_queued as u64);
    let min_get = decimal_string(info.min_get as u64);
    ring_info.add_element(queued.as_str()).add_element(min_get.as_str());
    let mut consumer_list = TclList::new();
    let usage = &info.info.consumer_usage;
    let mut i: usize = 0;
    while i < usage.len()
        invariant
            0 <= i <= usage@.len(),
            usage@ == info.info.consumer_usage@,
            consumer_list@ == consumer_entries(usage@).subrange(0, i as int),
        decreases usage@.len() - i,
    {
        let mut consumer_info = TclList::new();
        let pid = decimal_string(usage[i].pid as u64);
        let avail = decimal_string(usage[i].available as u64);
        consumer_info.add_element(pid.as_str()).add_element(avail.as_str());
        assert(consumer_info@ =~= seq![pid@, avail@]);
        let ghost before = consumer_list@;
        consumer_list.add_sublist(Box::new(consumer_info));
        assert(consumer_list@ == before.push(rendered(seq![pid@, avail@])));
        assert(consumer_entries(usage@)[i as int] == rendered(seq![pid@, avail@]));
        assert(consumer_list@ =~= consumer_entries(usage@).subrange(0, i + 1));
        i = i + 1;
    }
    assert(consumer_list@ =~= consumer_entries(usage@));
    ring_info.add_sublist(Box::new(consumer_list));
    let mut result = TclList::new();
    result.add_element(name);
    result.add_sublist(Box::new(ring_info));
    let ghost expected = seq![
        decimal(info.size as nat),
        decimal(info.info.free_space as nat),
        decimal(info.max_consumers as nat),
        producer_text(info.info.producer_pid),
        decimal(info.info.max_queued as nat),
        decimal(info.min_get as nat),
        rendered(consumer_entries(info.info.consumer_usage@)),
    ];
    assert(ring_info@ =~= expected);
    assert(result@ =~= seq![name@, rendered(expected)]);
    result.to_string()
}

} // verus!
