use nscldaq_ringmaster::inventory::{inventory_rings, RingInventory};
use nscldaq_ringmaster::listing::{ConsumerUsage, RingInfo, RingStatus};
use nscldaq_ringmaster::protocol::PeerAddress;
use nscldaq_ringmaster::rings::Client;
use nscldaq_ringmaster::session::{Effect, Event, Session, Step};

fn local() -> Session {
    Session::new(
        String::from("/dev/shm"),
        30000,
        Some(PeerAddress::V4([127, 0, 0, 1])),
        String::from("127.0.0.1:40000"),
    )
}

fn remote() -> Session {
    Session::new(
        String::from("/dev/shm"),
        30000,
        Some(PeerAddress::V4([10, 1, 2, 3])),
        String::from("10.1.2.3:40000"),
    )
}

fn rings(names: &[&str]) -> RingInventory {
    let files: Vec<String> = names.iter().map(|n| format!("/dev/shm/{}", n)).collect();
    inventory_rings(&files)
}

fn request(s: &mut Session, inv: &mut RingInventory, line: &str) -> Step {
    s.step(inv, Event::Request(String::from(line)))
}

fn reply(step: &Step) -> String {
    step.reply.clone().unwrap_or_default()
}

fn idle_ring_info(name: &str) -> RingInfo {
    RingInfo {
        name: String::from(name),
        size: 1024,
        max_consumers: 100,
        min_get: 0,
        info: RingStatus { producer_pid: 0xffffffff, free_space: 1024, max_queued: 0, consumer_usage: vec![] },
    }
}

#[test]
fn list_after_boot_names_the_one_ring() {
    let mut inv = rings(&["ringA"]);
    let mut s = local();
    let st = request(&mut s, &mut inv, "LIST\n");
    assert!(st.reply.is_none());
    match &st.effect {
        Effect::Survey(paths) => assert_eq!(paths, &vec![String::from("/dev/shm/ringA")]),
        _ => panic!("expected a survey"),
    }
    let st = s.step(&mut inv, Event::Surveyed(vec![Some(idle_ring_info("ringA"))]));
    assert_eq!("OK\r\n{ringA {1024 1024 100 -1 0 0 {} } } \r\n", reply(&st));
    assert!(matches!(st.effect, Effect::Close));
}

#[test]
fn list_prunes_rings_that_no_longer_open() {
    let mut inv = rings(&["ringA"]);
    let mut s = remote();
    request(&mut s, &mut inv, "LIST");
    let st = s.step(&mut inv, Event::Surveyed(vec![None]));
    assert_eq!("OK\r\n\r\n", reply(&st));
    assert_eq!(0, inv.len());
}

#[test]
fn register_new_ring_then_listed() {
    let mut inv = rings(&["ringA"]);
    let mut s = local();
    let st = request(&mut s, &mut inv, "REGISTER ringB\n");
    assert!(st.reply.is_none());
    match &st.effect {
        Effect::OpenRing(p) => assert_eq!("/dev/shm/ringB", p),
        _ => panic!("expected an open test"),
    }
    let st = s.step(&mut inv, Event::RingOpened(true));
    assert_eq!("OK\r\n", reply(&st));
    assert!(matches!(st.effect, Effect::ReadNext));
    assert!(inv.contains("ringB"));
    assert_eq!("/dev/shm/ringB", inv.get("ringB").unwrap().ring_file);
}

#[test]
fn register_twice_keeps_one_entry() {
    let mut inv = rings(&["ringA"]);
    let mut s = local();
    let st = request(&mut s, &mut inv, "REGISTER ringA");
    assert_eq!("OK\r\n", reply(&st));
    let st = request(&mut s, &mut inv, "REGISTER ringA");
    assert_eq!("OK\r\n", reply(&st));
    assert_eq!(1, inv.len());
}

#[test]
fn concurrent_register_of_one_file() {
    let mut inv = rings(&[]);
    let mut a = local();
    let mut b = local();
    request(&mut a, &mut inv, "REGISTER ringC");
    request(&mut b, &mut inv, "REGISTER ringC");
    assert_eq!("OK\r\n", reply(&a.step(&mut inv, Event::RingOpened(true))));
    assert_eq!("OK\r\n", reply(&b.step(&mut inv, Event::RingOpened(true))));
    assert_eq!(1, inv.len());
    assert!(inv.contains("ringC"));
}

#[test]
fn register_of_non_ring_fails() {
    let mut inv = rings(&[]);
    let mut s = local();
    request(&mut s, &mut inv, "REGISTER notes.txt");
    let st = s.step(&mut inv, Event::RingOpened(false));
    assert_eq!("FAIL notes.txt is not a ringbuffer\r\n", reply(&st));
    assert!(matches!(st.effect, Effect::Close));
    assert_eq!(0, inv.len());
}

#[test]
fn unregister_unknown_is_ok() {
    let mut inv = rings(&["ringA"]);
    let mut s = local();
    let st = request(&mut s, &mut inv, "UNREGISTER nosuch");
    assert_eq!("OK\r\n", reply(&st));
    assert_eq!(1, inv.len());
    let st = request(&mut s, &mut inv, "UNREGISTER ringA");
    assert_eq!("OK\r\n", reply(&st));
    assert_eq!(0, inv.len());
}

#[test]
fn connect_producer_then_disconnect() {
    let mut inv = rings(&["ringA"]);
    let mut s = local();
    let st = request(&mut s, &mut inv, "CONNECT {ringA} producer 4242\n");
    assert_eq!("OK\r\n", reply(&st));
    assert_eq!(Some(4242), s.client_pid);
    let rel = s.releases();
    assert_eq!(vec![(String::from("/dev/shm/ringA"), Client::Producer { pid: 4242 })], rel);
    let st = request(&mut s, &mut inv, "DISCONNECT {ringA} producer 4242\n");
    assert_eq!("OK\r\n", reply(&st));
    match &st.effect {
        Effect::Free(p, c) => {
            assert_eq!("/dev/shm/ringA", p);
            assert_eq!(Client::Producer { pid: 4242 }, *c);
        }
        _ => panic!("expected a free"),
    }
    assert!(s.releases().is_empty());
}

#[test]
fn connect_consumer_checks_slot() {
    let mut inv = rings(&["ringA"]);
    let mut s = local();
    let st = request(&mut s, &mut inv, "CONNECT ringA consumer.3 77 a-comment");
    match &st.effect {
        Effect::ReadSlot(p, c) => {
            assert_eq!("/dev/shm/ringA", p);
            assert_eq!(Client::Consumer { pid: 77, slot: 3 }, *c);
        }
        _ => panic!("expected a slot read"),
    }
    let st = s.step(&mut inv, Event::SlotOwner(Some(77)));
    assert_eq!("OK\r\n", reply(&st));
    assert_eq!(1, s.releases().len());
}

#[test]
fn connect_consumer_beyond_slots_fails() {
    let mut inv = rings(&["ringA"]);
    let mut s = local();
    request(&mut s, &mut inv, "CONNECT ringA consumer.100 77");
    let st = s.step(&mut inv, Event::SlotOwner(None));
    assert_eq!("FAIL No such consumer slot\r\n", reply(&st));
    assert!(matches!(st.effect, Effect::Close));
    assert!(s.releases().is_empty());
}

#[test]
fn second_pid_is_a_spoof() {
    let mut inv = rings(&["ringA"]);
    let mut s = local();
    assert_eq!("OK\r\n", reply(&request(&mut s, &mut inv, "CONNECT {ringA} producer 4242\n")));
    let st = request(&mut s, &mut inv, "CONNECT {ringA} consumer.0 4243\n");
    assert!(reply(&st).starts_with("FAIL"));
    assert!(reply(&st).contains("PID spoof"));
    assert!(matches!(st.effect, Effect::Close));
}

#[test]
fn local_only_verbs_refuse_remote_peers() {
    let mut inv = rings(&["ringA"]);
    for line in [
        "CONNECT ringA producer 1",
        "DISCONNECT ringA producer 1",
        "REGISTER ringA",
        "UNREGISTER ringA",
    ] {
        let mut s = remote();
        let st = request(&mut s, &mut inv, line);
        assert!(reply(&st).starts_with("FAIL "), "{}", line);
        assert!(matches!(st.effect, Effect::Close));
    }
    assert_eq!(1, inv.len());
}

#[test]
fn unknown_peer_address_is_not_local() {
    let mut inv = rings(&["ringA"]);
    let mut s = Session::new(String::from("/dev/shm"), 30000, None, String::new());
    let st = request(&mut s, &mut inv, "REGISTER ringA");
    assert_eq!("FAIL REGISTER Must come from a local host\r\n", reply(&st));
    let mut v6 = Session::new(
        String::from("/dev/shm"),
        30000,
        Some(PeerAddress::V6([0, 0, 0, 0, 0, 0, 0, 1])),
        String::from("[::1]:1"),
    );
    assert_eq!("OK\r\n", reply(&request(&mut v6, &mut inv, "REGISTER ringA")));
}

#[test]
fn empty_request_fails() {
    let mut inv = rings(&["ringA"]);
    let mut s = local();
    let st = request(&mut s, &mut inv, "\r\n");
    assert_eq!("FAIL Empty request\r\n", reply(&st));
    assert!(matches!(st.effect, Effect::Close));
    let mut t = local();
    let st = t.step(&mut inv, Event::Eof);
    assert_eq!("FAIL Empty request\r\n", reply(&st));
}

#[test]
fn malformed_requests_fail() {
    let mut inv = rings(&["ringA"]);
    let cases = [
        ("LIST extra", "FAIL LIST does not take any parameters\r\n"),
        ("REGISTER", "FAIL REGISTER must have only a ring name parameter\r\n"),
        ("UNREGISTER a b", "FAIL UNREGISTER must have only a ring name parameter\r\n"),
        ("CONNECT ringA producer", "FAIL Unregister must have at least name, type, pid\r\n"),
        ("DISCONNECT ringA producer", "FAIL Invalid request length\r\n"),
        ("REMOTE", "FAIL Invalid request length\r\n"),
        ("HELLO", "FAIL Invalid Request\r\n"),
        ("CONNECT nosuch producer 1", "FAIL No such ringbuffer in inventory\r\n"),
        ("CONNECT ringA producer -1", "FAIL Invalid process ID\r\n"),
        ("CONNECT ringA watcher 1", "FAIL Invalid connection type\r\n"),
        ("CONNECT ringA consumer.x 1", "FAIL Invalid consumer slot id\r\n"),
        ("CONNECT ringA producer.1 1", "FAIL Invalid connection type\r\n"),
        ("DISCONNECT ringA watcher 1", "FAIL Connection type is invalid: watcher\r\n"),
        ("DISCONNECT ringA producer.1 1", "FAIL Connection type is invalid: producer\r\n"),
        ("DISCONNECT ringA consumer.x 1", "FAIL Invalid slot number: x\r\n"),
        ("DISCONNECT ringA a.b.c 1", "FAIL Invalid connection type: a.b.c\r\n"),
        ("DISCONNECT ringA producer x", "FAIL x - pid must parse as an unsigned integer\r\n"),
        ("DISCONNECT nosuch producer 1", "FAIL nosuch is not a ring name registered to PID 1\r\n"),
    ];
    for (line, expected) in cases {
        let mut s = local();
        let st = request(&mut s, &mut inv, line);
        assert_eq!(expected, reply(&st), "{}", line);
        assert!(matches!(st.effect, Effect::Close));
    }
}

#[test]
fn disconnect_without_reservation_checks_the_slot() {
    let mut inv = rings(&["ringA"]);
    let mut s = local();
    let st = request(&mut s, &mut inv, "DISCONNECT ringA consumer.2 55");
    assert!(matches!(st.effect, Effect::ReadSlot(_, Client::Consumer { pid: 55, slot: 2 })));
    let st = s.step(&mut inv, Event::SlotOwner(Some(55)));
    assert_eq!("OK\r\n", reply(&st));
    assert!(matches!(st.effect, Effect::Free(_, Client::Consumer { pid: 55, slot: 2 })));
    let mut t = local();
    request(&mut t, &mut inv, "DISCONNECT ringA producer 56");
    let st = t.step(&mut inv, Event::SlotOwner(Some(57)));
    assert_eq!("FAIL 56 is not the producer of ringA\r\n", reply(&st));
}

#[test]
fn remote_starts_hoister() {
    let mut inv = rings(&["ringA"]);
    let mut s = remote();
    let st = request(&mut s, &mut inv, "REMOTE ringA\n");
    assert_eq!("OK BINARY FOLLOWS\r\n", reply(&st));
    match &st.effect {
        Effect::Hoist(args) => assert_eq!(
            args,
            &vec![
                String::from("--directory"),
                String::from("/dev/shm"),
                String::from("--ring"),
                String::from("ringA"),
                String::from("--port"),
                String::from("30000"),
                String::from("--comment"),
                String::from("Hoisting to 10.1.2.3:40000"),
            ]
        ),
        _ => panic!("expected a hoist"),
    }
    let after = s.step(&mut inv, Event::Request(String::from("LIST")));
    assert!(after.reply.is_none());
    assert!(matches!(after.effect, Effect::Close));
}

#[test]
fn remote_from_local_peer_or_unknown_ring_fails() {
    let mut inv = rings(&["ringA"]);
    let mut s = local();
    assert_eq!("FAIL REMOTE must come from a remote host\r\n", reply(&request(&mut s, &mut inv, "REMOTE ringA")));
    let mut t = remote();
    assert_eq!("FAIL ringZ is not in the ring master's inventory\r\n", reply(&request(&mut t, &mut inv, "REMOTE ringZ")));
}

#[test]
fn list_describes_producer_and_consumers() {
    let mut inv = rings(&["r1", "r2"]);
    let mut s = local();
    let st = request(&mut s, &mut inv, "LIST");
    let names: Vec<String> = match &st.effect {
        Effect::Survey(paths) => paths.clone(),
        _ => panic!("expected a survey"),
    };
    assert_eq!(2, names.len());
    let infos: Vec<Option<RingInfo>> = names
        .iter()
        .map(|p| {
            if p.ends_with("r1") {
                Some(RingInfo {
                    name: String::from("r1"),
                    size: 2048,
                    max_consumers: 4,
                    min_get: 10,
                    info: RingStatus {
                        producer_pid: 12,
                        free_space: 1000,
                        max_queued: 30,
                        consumer_usage: vec![
                            ConsumerUsage { pid: 20, available: 30 },
                            ConsumerUsage { pid: 21, available: 10 },
                        ],
                    },
                })
            } else {
                None
            }
        })
        .collect();
    let st = s.step(&mut inv, Event::Surveyed(infos));
    assert_eq!("OK\r\n{r1 {2048 1000 4 12 30 10 {{20 30 } {21 10 } } } } \r\n", reply(&st));
    assert_eq!(1, inv.len());
    assert!(inv.contains("r1"));
}

#[test]
fn abrupt_close_releases_the_producer_slot() {
    let mut inv = rings(&["ringA"]);
    let mut s = local();
    assert_eq!("OK\r\n", reply(&request(&mut s, &mut inv, "CONNECT {ringA} producer 4242\n")));
    let st = s.step(&mut inv, Event::Eof);
    assert!(matches!(st.effect, Effect::Close));
    assert_eq!(vec![(String::from("/dev/shm/ringA"), Client::Producer { pid: 4242 })], s.releases());
}

#[test]
fn same_pid_may_reserve_two_slots() {
    let mut inv = rings(&["ringA", "ringB"]);
    let mut s = local();
    assert_eq!("OK\r\n", reply(&request(&mut s, &mut inv, "CONNECT ringA producer 9")));
    request(&mut s, &mut inv, "CONNECT {ringB} consumer.1 9");
    assert_eq!("OK\r\n", reply(&s.step(&mut inv, Event::SlotOwner(Some(0xffffffff)))));
    let mut rel = s.releases();
    rel.sort_by(|a, b| a.0.cmp(&b.0));
    assert_eq!(
        vec![
            (String::from("/dev/shm/ringA"), Client::Producer { pid: 9 }),
            (String::from("/dev/shm/ringB"), Client::Consumer { pid: 9, slot: 1 }),
        ],
        rel
    );
}

#[test]
fn disconnect_of_consumer_not_in_slot_names_slot_and_ring() {
    let mut inv = rings(&["ringA"]);
    let mut s = local();
    request(&mut s, &mut inv, "DISCONNECT {ringA} consumer.4 60");
    let st = s.step(&mut inv, Event::SlotOwner(None));
    assert_eq!("FAIL 60 is not a consumer on slot 4 of ring ringA\r\n", reply(&st));
}

#[test]
fn spoof_on_disconnect_fails() {
    let mut inv = rings(&["ringA"]);
    let mut s = local();
    assert_eq!("OK\r\n", reply(&request(&mut s, &mut inv, "CONNECT ringA producer 5")));
    let st = request(&mut s, &mut inv, "DISCONNECT ringA producer 6");
    assert_eq!("FAIL attemped PID spoof\r\n", reply(&st));
    assert!(matches!(st.effect, Effect::Close));
}

#[test]
fn list_uses_inventory_names() {
    let mut inv = rings(&["ringB"]);
    let mut s = local();
    request(&mut s, &mut inv, "LIST");
    let st = s.step(&mut inv, Event::Surveyed(vec![Some(idle_ring_info("other"))]));
    assert_eq!("OK\r\n{ringB {1024 1024 100 -1 0 0 {} } } \r\n", reply(&st));
}

#[test]
fn short_survey_prunes_the_rest() {
    let mut inv = rings(&["r1", "r2"]);
    let mut s = local();
    request(&mut s, &mut inv, "LIST");
    let st = s.step(&mut inv, Event::Surveyed(vec![]));
    assert_eq!("OK\r\n\r\n", reply(&st));
    assert_eq!(0, inv.len());
}
