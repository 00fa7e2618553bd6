//! The vocabulary of the control protocol: request verbs, client roles,
//! reply lines and which peers count as local.
use vstd::prelude::*;
use crate::rings::Client;
use crate::text::{parse_unsigned, pieces, push_char, split_on, unsigned_value, views};

verus! {

/// The success reply line.
pub open spec fn ok_text() -> Seq<char> {
    seq!['O', 'K', '\r', '\n']
}

/// The failure reply line for `reason`.
pub open spec fn fail_text(reason: Seq<char>) -> Seq<char> {
    seq!['F', 'A', 'I', 'L', ' '] + reason + seq!['\r', '\n']
}

/// The success reply line, `OK\r\n`.
pub fn ok_reply() -> (r: String)
    ensures
        r@ == ok_text(),
{
    let mut r = String::new();
    push_char(&mut r, 'O');
    push_char(&mut r, 'K');
    push_char(&mut r, '\r');
    push_char(&mut r, '\n');
    assert(r@ =~= ok_text());
    r
}

/// The failure reply line, `FAIL <reason>\r\n`.
pub fn fail_reply(reason: &str) -> (r: String)
    ensures
        r@ == fail_text(reason@),
{
    let mut r = String::new();
    push_char(&mut r, 'F');
    push_char(&mut r, 'A');
    push_char(&mut r, 'I');
    push_char(&mut r, 'L');
    push_char(&mut r, ' ');
    r.append(reason);
    push_char(&mut r, '\r');
    push_char(&mut r, '\n');
    assert(r@ =~= fail_text(reason@));
    r
}

/// Whether two texts are the same.
pub fn same_text(a: &str, b: &str) -> (r: bool)
    ensures
        r == (a@ == b@),
{
    let n = a.unicode_len();
    if n != b.unicode_len() {
        return false;
    }
    let mut i: usize = 0;
    while i < n
        invariant
            0 <= i <= n,
            n == a@.len(),
            n == b@.len(),
            a@.subrange(0, i as int) == b@.subrange(0, i as int),
        decreases n - i,
    {
        if a.get_char(i) != b.get_char(i) {
            return false;
        }
        assert(a@.subrange(0, i + 1) =~= a@.subrange(0, i as int).push(a@[i as int]));
        assert(b@.subrange(0, i + 1) =~= b@.subrange(0, i as int).push(b@[i as int]));
        i = i + 1;
    }
    assert(a@ =~= a@.subrange(0, n as int));
    assert(b@ =~= b@.subrange(0, n as int));
    true
}

/// The verbs of the protocol.
#[derive(Copy, Clone, Debug, PartialEq, Eq, Structural)]
pub enum Verb {
    List,
    Register,
    Unregister,
    Connect,
    Disconnect,
    Remote,
    Unknown,
}

/// The verb that a request's first word names.
pub open spec fn verb_of(w: Seq<char>) -> Verb {
    if w == "LIST"@ {
        Verb::List
    } else if w == "REGISTER"@ {
        Verb::Register
    } else if w == "UNREGISTER"@ {
        Verb::Unregister
    } else if w == "CONNECT"@ {
        Verb::Connect
    } else if w == "DISCONNECT"@ {
        Verb::Disconnect
    } else if w == "REMOTE"@ {
        Verb::Remote
    } else {
        Verb::Unknown
    }
}

/// The verb that a request's first word names.
pub fn verb(w: &str) -> (r: Verb)
    ensures
        r == verb_of(w@),
{
    if same_text(w, "LIST") {
        Verb::List
    } else if same_text(w, "REGISTER") {
        Verb::Register
    } else if same_text(w, "UNREGISTER") {
        Verb::Unregister
    } else if same_text(w, "CONNECT") {
        Verb::Connect
    } else if same_text(w, "DISCONNECT") {
        Verb::Disconnect
    } else if same_text(w, "REMOTE") {
        Verb::Remote
    } else {
        Verb::Unknown
    }
}

/// The client that `role` (`producer` or `consumer.<slot>`) names for
/// process `pid`, if it names one.
pub open spec fn role_client(role: Seq<char>, pid: u32) -> Option<Client> {
    let p = pieces(role, '.');
    if p.len() == 1 && p[0] == "producer"@ {
        Some(Client::Producer { pid })
    } else if p.len() == 2 && p[0] == "consumer"@ {
        match unsigned_value(p[1], u32::MAX as nat) {
            Some(slot) => Some(Client::Consumer { pid, slot: slot as u32 }),
            None => None,
        }
    } else {
        None
    }
}

/// Why `CONNECT` refuses a role that names no client.
pub open spec fn connect_role_failure(role: Seq<char>) -> Seq<char> {
    let p = pieces(role, '.');
    if p.len() == 2 && p[0] == "consumer"@ {
        "Invalid consumer slot id"@
    } else {
        "Invalid connection type"@
    }
}

/// Why `DISCONNECT` refuses a role that names no client.
pub open spec fn disconnect_role_failure(role: Seq<char>) -> Seq<char> {
    let p = pieces(role, '.');
    if p.len() == 1 || (p.len() == 2 && p[0] != "consumer"@) {
        "Connection type is invalid: "@ + p[0]
    } else if p.len() == 2 {
        "Invalid slot number: "@ + p[1]
    } else {
        "Invalid connection type: "@ + role
    }
}

/// The client that `role` names for process `pid`, if it names one.
pub fn parse_role(role: &str, pid: u32) -> (r: Option<Client>)
    ensures
        r == role_client(role@, pid),
{
    let p = split_on(role, '.');
    assert(views(p@)[0] == p@[0]@);
    if p.len() == 1 && same_text(p[0].as_str(), "producer") {
        return Some(Client::Producer { pid });
    }
    if p.len() == 2 && same_text(p[0].as_str(), "consumer") {
        assert(views(p@)[1] == p@[1]@);
        match parse_unsigned(p[1].as_str(), 0xffff_ffffu64) {
            Some(slot) => Some(Client::Consumer { pid, slot: slot as u32 }),
            None => None,
        }
    } else {
        None
    }
}

/// The reason `CONNECT` gives for a role that names no client.
pub fn connect_role_failure_text(role: &str) -> (r: String)
    ensures
        r@ == connect_role_failure(role@),
{
    let p = split_on(role, '.');
    assert(views(p@)[0] == p@[0]@);
    if p.len() == 2 && same_text(p[0].as_str(), "consumer") {
        "Invalid consumer slot id".to_owned()
    } else {
        "Invalid connection type".to_owned()
    }
}

/// The reason `DISCONNECT` gives for a role that names no client.
pub fn disconnect_role_failure_text(role: &str) -> (r: String)
    ensures
        r@ == disconnect_role_failure(role@),
{
    let p = split_on(role, '.');
    assert(views(p@)[0] == p@[0]@);
    if p.len() == 1 || (p.len() == 2 && !same_text(p[0].as_str(), "consumer")) {
        let mut r = "Connection type is invalid: ".to_owned();
        r.append(p[0].as_str());
        r
    } else if p.len() == 2 {
        assert(views(p@)[1] == p@[1]@);
        let mut r = "Invalid slot number: ".to_owned();
        r.append(p[1].as_str());
        r
    } else {
        let mut r = "Invalid connection type: ".to_owned();
        r.append(role);
        r
    }
}

/// The address of a connected peer.
pub enum PeerAddress {
    V4([u8; 4]),
    V6([u16; 8]),
}

/// A peer is local when its address is `127.0.0.1` or `::1`; a peer
/// whose address could not be had is not.
pub open spec fn is_loopback(peer: Option<PeerAddress>) -> bool {
    match peer {
        Some(PeerAddress::V4(a)) => a@ == seq![127u8, 0u8, 0u8, 1u8],
        Some(PeerAddress::V6(a)) => a@ == seq![0u16, 0u16, 0u16, 0u16, 0u16, 0u16, 0u16, 1u16],
        None => false,
    }
}

/// Whether the peer is local.
pub fn is_local_peer(peer: &Option<PeerAddress>) -> (r: bool)
    ensures
        r == is_loopback(*peer),
{
    match peer {
        Some(PeerAddress::V4(a)) => {
            let r = a[0] == 127 && a[1] == 0 && a[2] == 0 && a[3] == 1;
            assert(r == (a@ =~= seq![127u8, 0u8, 0u8, 1u8]));
            r
        },
        Some(PeerAddress::V6(a)) => {
            let r = a[0] == 0 && a[1] == 0 && a[2] == 0 && a[3] == 0 && a[4] == 0 && a[5] == 0
                && a[6] == 0 && a[7] == 1;
            assert(r == (a@ =~= seq![0u16, 0u16, 0u16, 0u16, 0u16, 0u16, 0u16, 1u16]));
            r
        },
        None => false,
    }
}

} // verus!
