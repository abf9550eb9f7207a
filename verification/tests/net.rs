use veldspar::net::{ClientDirectory, PeerAddr, MAX_CLIENTS};

fn addr(port: u16) -> PeerAddr {
    PeerAddr { ip: 0x7f00_0001, port, v6: false, flow_info: 0, scope_id: 0 }
}

#[test]
fn new_addresses_get_increasing_ids_until_the_server_is_full() {
    let mut d = ClientDirectory::new();
    assert_eq!(d.resolve_client_id(addr(1000)), Some(1));
    assert_eq!(d.resolve_client_id(addr(1001)), Some(2));
    assert_eq!(d.resolve_client_id(addr(1000)), Some(1));
    assert_eq!(d.client_addr(2), Some(addr(1001)));
    assert_eq!(d.client_for(addr(1001)), Some(2));
    for p in 2..MAX_CLIENTS as u16 {
        assert!(d.resolve_client_id(addr(1000 + p)).is_some());
    }
    assert_eq!(d.resolve_client_id(addr(5000)), None);
    d.client_disconnected(3);
    assert_eq!(d.resolve_client_id(addr(5000)), Some(33));
}

#[test]
fn departed_clients_leave_their_address_once() {
    let mut d = ClientDirectory::new();
    d.resolve_client_id(addr(7));
    d.client_disconnected(1);
    assert_eq!(d.client_addr(1), None);
    assert_eq!(d.client_for(addr(7)), None);
    assert_eq!(d.take_disconnected_addr(1), Some(addr(7)));
    assert_eq!(d.take_disconnected_addr(1), None);
    d.client_disconnected(9);
    assert_eq!(d.take_disconnected_addr(9), None);
}

#[test]
fn ipv6_addresses_differ_by_scope() {
    let mut d = ClientDirectory::new();
    let a = PeerAddr { ip: 1, port: 9, v6: true, flow_info: 0, scope_id: 1 };
    let b = PeerAddr { ip: 1, port: 9, v6: true, flow_info: 0, scope_id: 2 };
    assert_eq!(d.resolve_client_id(a), Some(1));
    assert_eq!(d.resolve_client_id(b), Some(2));
}
