use raft_storage::storage::logic::Service;
use raft_storage::storage::nio::{NetAddress, NetCommand};

fn local(port: u16) -> NetAddress {
    NetAddress::V4 { octets: [127, 0, 0, 1], v4_port: port }
}

#[test]
fn new_service_is_detached_and_empty() {
    let mut s = Service::new();
    assert!(!s.running());
    assert!(s.take_commands().is_empty());
    s.attach();
    assert!(s.running());
}

#[test]
fn commands_are_kept_in_order() {
    let mut s = Service::new();
    s.attach();
    s.listen(0, local(9090));
    s.connect(0, local(9090));
    s.timeout(10, 5);
    s.send(3, vec![2, 7, 8]);
    s.cancel_timeout(10);
    assert_eq!(
        s.take_commands(),
        vec![
            NetCommand::LISTEN((0, local(9090))),
            NetCommand::CONNECT((0, local(9090))),
            NetCommand::TIMEOUT((10, 5)),
            NetCommand::SEND((3, vec![2, 7, 8])),
            NetCommand::CANCEL_TIMEOUT(10),
        ]
    );
    assert!(s.take_commands().is_empty());
    assert!(s.running());
}

#[test]
fn taking_commands_keeps_later_ones_apart() {
    let mut s = Service::new();
    s.attach();
    s.timeout(1, 1);
    assert_eq!(s.take_commands(), vec![NetCommand::TIMEOUT((1, 1))]);
    s.timeout(2, 2);
    assert_eq!(s.take_commands(), vec![NetCommand::TIMEOUT((2, 2))]);
}

#[test]
fn v6_address_is_carried_unchanged() {
    let a = NetAddress::V6 { segments: [0, 0, 0, 0, 0, 0, 0, 1], v6_port: 80, flowinfo: 0, scope_id: 0 };
    let mut s = Service::new();
    s.attach();
    s.connect(5, a);
    assert_eq!(s.take_commands(), vec![NetCommand::CONNECT((5, a))]);
}
