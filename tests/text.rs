use nscldaq_ringmaster::inventory::{add_ring, inventory_rings, load_initial_clients, RingInventory, SlotSnapshot};
use nscldaq_ringmaster::listing::{format_ring_info, min_gettable, ConsumerUsage, RingInfo, RingStatus};
use nscldaq_ringmaster::paths::{compute_ring_buffer_path, filename_from_path};
use nscldaq_ringmaster::rings::Client;
use nscldaq_ringmaster::text::{decimal_string, line_to_words, parse_unsigned, strip_braces};

#[test]
fn words_of_request_lines() {
    assert_eq!(vec!["CONNECT", "{ringA}", "producer", "4242"], line_to_words("CONNECT {ringA} producer 4242\r\n"));
    assert_eq!(vec!["a", "b"], line_to_words("  a \t  b  "));
    assert!(line_to_words("").is_empty());
    assert!(line_to_words(" \r\n").is_empty());
}

#[test]
fn unsigned_numbers() {
    assert_eq!(Some(4242), parse_unsigned("4242", 0xffff_ffff));
    assert_eq!(Some(7), parse_unsigned("+7", 0xffff_ffff));
    assert_eq!(Some(4294967295), parse_unsigned("4294967295", 0xffff_ffff));
    assert_eq!(None, parse_unsigned("4294967296", 0xffff_ffff));
    assert_eq!(None, parse_unsigned("", 0xffff_ffff));
    assert_eq!(None, parse_unsigned("+", 0xffff_ffff));
    assert_eq!(None, parse_unsigned("-1", 0xffff_ffff));
    assert_eq!(None, parse_unsigned("12a", 0xffff_ffff));
    assert_eq!(Some(65535), parse_unsigned("65535", 65535));
    assert_eq!(None, parse_unsigned("65536", 65535));
}

#[test]
fn decimal_rendering() {
    assert_eq!("0", decimal_string(0));
    assert_eq!("30000", decimal_string(30000));
    assert_eq!("18446744073709551615", decimal_string(u64::MAX));
}

#[test]
fn braces_stripped() {
    assert_eq!("ringA", strip_braces("{ringA}"));
    assert_eq!("ringA", strip_braces("ringA"));
    assert_eq!("{}", strip_braces("{}"));
    assert_eq!("x", strip_braces("{x}"));
    assert_eq!("{x", strip_braces("{x"));
}

#[test]
fn ring_paths() {
    assert_eq!("/dev/shm/ringA", compute_ring_buffer_path("/dev/shm", "ringA"));
    assert_eq!("/dev/shm/ringA", compute_ring_buffer_path("/dev/shm/", "ringA"));
    assert_eq!("/abs/r", compute_ring_buffer_path("/dev/shm", "/abs/r"));
    assert_eq!("ringA", compute_ring_buffer_path("", "ringA"));
    assert_eq!("ringA", filename_from_path("/dev/shm/ringA"));
    assert_eq!("ringA", filename_from_path("ringA"));
    assert_eq!("", filename_from_path("/dev/shm/"));
}

#[test]
fn inventory_from_ring_files() {
    let files = vec![String::from("/dev/shm/ringA"), String::from("./poop")];
    let inv = inventory_rings(&files);
    assert_eq!(2, inv.len());
    assert_eq!("./poop", inv.get("poop").unwrap().ring_file);
    let mut names = inv.names();
    names.sort();
    assert_eq!(vec![String::from("poop"), String::from("ringA")], names);
}

#[test]
fn add_ring_replaces_same_name() {
    let mut inv = RingInventory::new();
    add_ring("/a/ring", &mut inv);
    add_ring("/b/ring", &mut inv);
    assert_eq!(1, inv.len());
    assert_eq!("/b/ring", inv.get("ring").unwrap().ring_file);
}

#[test]
fn initial_clients_from_slots() {
    let mut inv = inventory_rings(&vec![String::from("/dev/shm/r"), String::from("/dev/shm/gone")]);
    load_initial_clients(
        &mut inv,
        "r",
        Some(SlotSnapshot { producer: 10, consumers: vec![0xffffffff, 11, 0xffffffff, 12] }),
    );
    load_initial_clients(&mut inv, "gone", None);
    assert_eq!(1, inv.len());
    let r = inv.get("r").unwrap();
    assert_eq!(3, r.client_count());
    assert_eq!(Client::Producer { pid: 10 }, r.get_client_info(&10).unwrap().client_info);
    assert_eq!(Client::Consumer { pid: 11, slot: 1 }, r.get_client_info(&11).unwrap().client_info);
    assert_eq!(Client::Consumer { pid: 12, slot: 3 }, r.get_client_info(&12).unwrap().client_info);
}

#[test]
fn consumers_recorded_without_producer() {
    let mut inv = inventory_rings(&vec![String::from("/dev/shm/r")]);
    load_initial_clients(&mut inv, "r", Some(SlotSnapshot { producer: 0xffffffff, consumers: vec![5] }));
    assert_eq!(1, inv.get("r").unwrap().client_count());
}

#[test]
fn min_gettable_values() {
    let mut st = RingStatus { producer_pid: 1, free_space: 0, max_queued: 0, consumer_usage: vec![] };
    assert_eq!(0, min_gettable(&st));
    st.consumer_usage.push(ConsumerUsage { pid: 1, available: 50 });
    st.consumer_usage.push(ConsumerUsage { pid: 2, available: 7 });
    st.consumer_usage.push(ConsumerUsage { pid: 3, available: 9 });
    assert_eq!(7, min_gettable(&st));
}

#[test]
fn ring_description_text() {
    let info = RingInfo {
        name: String::from("ringA"),
        size: 100,
        max_consumers: 2,
        min_get: 0,
        info: RingStatus { producer_pid: 4242, free_space: 90, max_queued: 10, consumer_usage: vec![ConsumerUsage { pid: 7, available: 10 }] },
    };
    assert_eq!("{ringA {100 90 2 4242 10 0 {{7 10 } } } }", format_ring_info(&info));
}
