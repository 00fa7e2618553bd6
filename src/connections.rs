//! The reservations one control connection holds: for each ring name, the
//! clients that connected to it over that connection, in order.
use vstd::prelude::*;
use crate::rings::Client;
use crate::table::NameTable;
use crate::text::{strip_braces, unbraced};

verus! {

/// Reservations by ring name.
pub type ConnectionTable = NameTable<Vec<Client>>;

/// The clients reserved on `ring` (none when the ring has no entry).
pub open spec fn held(c: Map<Seq<char>, Vec<Client>>, ring: Seq<char>) -> Seq<Client> {
    if c.contains_key(ring) {
        c[ring]@
    } else {
        seq![]
    }
}

/// `i` is where `c` first occurs in `s`.
pub open spec fn first_at(s: Seq<Client>, c: Client, i: int) -> bool {
    &&& 0 <= i < s.len()
    &&& s[i] == c
    &&& forall|j: int| 0 <= j < i ==> s[j] != c
}

/// `after` is `before` with `client` added at the end of the reservations
/// on `ring` (braces stripped from the name).
pub open spec fn recorded(
    before: Map<Seq<char>, Vec<Client>>,
    after: Map<Seq<char>, Vec<Client>>,
    ring: Seq<char>,
    client: Client,
) -> bool {
    &&& after.dom() == before.dom().insert(unbraced(ring))
    &&& held(after, unbraced(ring)) == held(before, unbraced(ring)).push(client)
    &&& after.remove(unbraced(ring)) == before.remove(unbraced(ring))
}

/// `after` is `before` without the first reservation of `client` on
/// `ring` (braces stripped from the name), if it had one.
pub open spec fn unrecorded(
    before: Map<Seq<char>, Vec<Client>>,
    after: Map<Seq<char>, Vec<Client>>,
    ring: Seq<char>,
    client: Client,
) -> bool {
    let k = unbraced(ring);
    &&& after.dom() == before.dom()
    &&& after.remove(k) == before.remove(k)
    &&& held(before, k).contains(client) ==> exists|i: int|
        first_at(held(before, k), client, i) && held(after, k) == held(before, k).remove(i)
    &&& !held(before, k).contains(client) ==> held(after, k) == held(before, k)
}

/// Whether `connection` is among `registrations`.
pub fn connection_exists(connection: &Client, registrations: &Vec<Client>) -> (r: bool)
    ensures
        r == registrations@.contains(*connection),
{
    let mut i: usize = 0;
    while i < registrations.len()
        invariant
            0 <= i <= registrations@.len(),
            forall|j: int| 0 <= j < i ==> registrations@[j] != *connection,
        decreases registrations@.len() - i,
    {
        if *connection == registrations[i] {
            return true;
        }
        i = i + 1;
    }
    false
}

/// Adds `client` at the end of the reservations on `ring` (braces
/// stripped from the name).
pub fn record_connection(ring: &str, connections: &mut ConnectionTable, client: Client)
    requires
        old(connections).wf(),
    ensures
        final(connections).wf(),
        recorded(old(connections)@, final(connections)@, ring@, client),
{
    let ringname = strip_braces(ring);
    let ghost k = ringname@;
    let entry = match connections.remove(ringname.as_str()) {
        Some(mut v) => {
            v.push(client);
            v
        },
        None => {
            let mut v: Vec<Client> = Vec::new();
            v.push(client);
            v
        },
    };
    let ghost expected = entry;
    connections.insert(ringname, entry);
    assert(connections@.dom() =~= old(connections)@.dom().insert(k));
    assert(connections@.remove(k) =~= old(connections)@.remove(k));
    assert(held(old(connections)@, k).push(client) =~= expected@);
}

/// Removes the first reservation of `client` on `ring` (braces stripped
/// from the name), if there is one.
pub fn unrecord_connection(ring: &str, connections: &mut ConnectionTable, client: Client)
    requires
        old(connections).wf(),
    ensures
        final(connections).wf(),
        unrecorded(old(connections)@, final(connections)@, ring@, client),
{
    let ringname = strip_braces(ring);
    let ghost k = ringname@;
    if let Some(mut entry) = connections.remove(ringname.as_str()) {
        let ghost s = entry@;
        let mut i: usize = 0;
        let mut found = false;
        while !found && i < entry.len()
            invariant
                0 <= i <= entry@.len(),
                entry@ == s,
                found ==> first_at(s, client, i as int),
                !found ==> forall|j: int| 0 <= j < i ==> s[j] != client,
            decreases entry@.len() - i + (if found { 0int } else { 1int }),
        {
            if entry[i] == client {
                found = true;
            } else {
                i = i + 1;
            }
        }
        if found {
            entry.remove(i);
        }
        let ghost kept = entry@;
        connections.insert(ringname, entry);
        assert(held(connections@, k) == kept);
        if found {
            assert(first_at(s, client, i as int) && held(connections@, k) == s.remove(i as int));
        } else {
            assert(!s.contains(client));
        }
        assert(connections@.dom() =~= old(connections)@.dom());
        assert(connections@.remove(k) =~= old(connections)@.remove(k));
    } else {
        assert(connections@ =~= old(connections)@);
    }
}

} // verus!
