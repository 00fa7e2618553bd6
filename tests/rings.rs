use nscldaq_ringmaster::rings::{Client, ClientMonitorInfo, RingBufferInfo};

#[test]
fn rings_new_1() {
    let c = Client::Producer { pid: 124 };
    let info = ClientMonitorInfo::new(c);
    if let Client::Producer { pid } = info.client_info {
        assert_eq!(124, pid);
    } else {
        assert!(false, "Wrong type of client encapsulated");
    }
    assert!(info.should_run);
}

#[test]
fn new_2() {
    let c = Client::Consumer { pid: 123, slot: 3 };
    let info = ClientMonitorInfo::new(c);
    if let Client::Consumer { pid, slot } = info.client_info {
        assert_eq!(123, pid);
        assert_eq!(3, slot);
    } else {
        assert!(false, "Wrong type of client encapsulated");
    }
    assert!(info.should_run);
}

#[test]
fn stop_monitor_clears_flag() {
    let mut info = ClientMonitorInfo::new(Client::Producer { pid: 1234 });
    assert!(info.keep_running());
    info.stop_monitor();
    assert!(!info.keep_running());
    let mut other = ClientMonitorInfo::new(Client::Producer { pid: 1 });
    other.schedule_stop_monitor();
    assert!(!other.should_run);
}

#[test]
fn ringbuf_new_1() {
    let info = RingBufferInfo::new("ringname");
    assert_eq!(String::from("ringname"), info.ring_file);
    assert_eq!(0, info.client_count());
}

#[test]
fn add_1() {
    // add client information with no overwrite.
    let mut info = RingBufferInfo::new("ringbuffer");
    let producer = ClientMonitorInfo::new(Client::Producer { pid: 1234 });
    info.add_client(producer);
    assert_eq!(1, info.client_count());
    if let Some(c) = info.get_client_info(&1234) {
        match c.client_info {
            Client::Producer { pid } => {
                assert_eq!(1234, pid);
            }
            Client::Consumer { pid: _pid, slot: _slot } => {
                assert!(false, "Got consumer expected producer");
            }
        }
        assert!(c.should_run);
    } else {
        assert!(false, "Did not insert client into map");
    }
}

#[test]
fn add_2() {
    // Add a consumer client to the ring:
    let mut info = RingBufferInfo::new("ringbuffer");
    let consumer = ClientMonitorInfo::new(Client::Consumer { pid: 1234, slot: 2 });
    info.add_client(consumer);
    assert_eq!(1, info.client_count());
    if let Some(c) = info.get_client_info(&1234) {
        match c.client_info {
            Client::Producer { pid: _pid } => {
                assert!(false, "Should have gotten consumer, got producer");
            }
            Client::Consumer { pid, slot } => {
                assert_eq!(1234, pid);
                assert_eq!(2, slot);
            }
        }
    } else {
        assert!(false, "Did not insert client into map!");
    }
}

#[test]
fn add_3() {
    // add a consumer and producer - non colliding.
    let mut info = RingBufferInfo::new("ringbuffer");
    let producer = ClientMonitorInfo::new(Client::Producer { pid: 1111 });
    let consumer = ClientMonitorInfo::new(Client::Consumer { pid: 1234, slot: 2 });
    info.add_client(producer).add_client(consumer);
    assert_eq!(2, info.client_count());
    if let Some(_p) = info.get_client_info(&1111) {
        assert!(true);
    } else {
        assert!(false, "Producer did not get inserted");
    }
    if let Some(_c) = info.get_client_info(&1234) {
        assert!(true);
    } else {
        assert!(false, "Consumer did not get inserted");
    }
}

#[test]
fn add_4() {
    // Second add overwrites existing add..
    let mut info = RingBufferInfo::new("ringbuffer");
    let producer = ClientMonitorInfo::new(Client::Producer { pid: 1234 });
    let consumer = ClientMonitorInfo::new(Client::Consumer { pid: 1234, slot: 2 });
    info.add_client(producer).add_client(consumer); // should overwrite.
    assert_eq!(1, info.client_count());
    if let Some(c) = info.get_client_info(&1234) {
        match c.client_info {
            Client::Producer { pid: _pid } => {
                assert!(false, "should have been a consumer");
            }
            Client::Consumer { pid, slot } => {
                assert_eq!(1234, pid);
                assert_eq!(2, slot);
            }
        }
    } else {
        assert!(false, "There should be ! 1234 client but isn't");
    }
}

#[test]
fn remove_1() {
    // Remove is ok if there's no client with that pid
    let mut info = RingBufferInfo::new("ring");
    info.remove_client(1234); // Should not panic.
    assert_eq!(0, info.client_count());
}

#[test]
fn remove_2() {
    // Remove when monitor process was not started works:
    let mut info = RingBufferInfo::new("ringbuffer");
    let producer = ClientMonitorInfo::new(Client::Producer { pid: 1234 });
    info.add_client(producer).remove_client(1234);
    assert_eq!(0, info.client_count());
}

#[test]
fn remove_4() {
    // Remove all clients.
    let mut info = RingBufferInfo::new("ringbuffer");
    let producer = ClientMonitorInfo::new(Client::Producer { pid: 4321 });
    let consumer = ClientMonitorInfo::new(Client::Consumer { pid: 1234, slot: 2 });
    info.add_client(producer).add_client(consumer).remove_all();
    assert_eq!(0, info.client_count());
}

#[test]
fn unlist_and_unregister_forget_one_pid() {
    let mut info = RingBufferInfo::new("ringbuffer");
    info.add_client(ClientMonitorInfo::new(Client::Producer { pid: 1 }))
        .add_client(ClientMonitorInfo::new(Client::Consumer { pid: 2, slot: 0 }))
        .add_client(ClientMonitorInfo::new(Client::Consumer { pid: 3, slot: 1 }));
    info.unlist_client(1).unregister_client(3);
    assert_eq!(1, info.client_count());
    assert!(info.have_pid(2));
    assert!(!info.have_pid(1));
    assert!(!info.have_pid(3));
    assert_eq!(2, info.get_client_info(&2).unwrap().client_info.pid());
}

#[test]
fn client_holds_only_its_own_slot() {
    let c = Client::Consumer { pid: 7, slot: 1 };
    assert!(c.holds(Some(7)));
    assert!(!c.holds(Some(8)));
    assert!(!c.holds(None));
    assert!(!Client::Producer { pid: 7 }.holds(Some(0xffffffff)));
}
