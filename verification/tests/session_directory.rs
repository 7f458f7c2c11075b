use multiplayer_server::endpoint::Endpoint;
use multiplayer_server::session_directory::{
    get_next_connection_id, RegisterError, SessionDirectory,
};

fn at(port: u16) -> Endpoint {
    Endpoint::v4(10, 0, 0, 1, port)
}

#[test]
fn resolving_the_same_endpoint_returns_the_same_id() {
    let mut directory = SessionDirectory::new();
    let first = directory.resolve(at(1));
    assert_eq!(first, Some(0));
    for _ in 0..10 {
        assert_eq!(directory.resolve(at(1)), first);
    }
    assert_eq!(directory.next_id(), 1);
    assert_eq!(directory.len(), 1);
}

#[test]
fn issued_ids_increase_and_are_not_reused_after_removal() {
    let mut directory = SessionDirectory::new();
    assert_eq!(directory.resolve(at(1)), Some(0));
    assert_eq!(directory.resolve(at(2)), Some(1));
    assert_eq!(directory.remove(0), Some(at(1)));
    assert_eq!(directory.remove(1), Some(at(2)));
    assert_eq!(directory.len(), 0);
    assert_eq!(directory.resolve(at(1)), Some(2));
    assert_eq!(directory.resolve(at(3)), Some(3));
    assert_eq!(directory.next_id(), 4);
}

#[test]
fn lookup_and_find_are_inverse() {
    let mut directory = SessionDirectory::new();
    directory.resolve(at(7));
    directory.resolve(at(8));
    assert_eq!(directory.lookup(0), Some(at(7)));
    assert_eq!(directory.lookup(1), Some(at(8)));
    assert_eq!(directory.lookup(2), None);
    assert_eq!(directory.find(at(7)), Some(0));
    assert_eq!(directory.find(at(8)), Some(1));
    assert_eq!(directory.find(at(9)), None);
}

#[test]
fn endpoints_differ_by_address_port_and_family() {
    let mut directory = SessionDirectory::new();
    let v4 = Endpoint::V4 { ip: 1, port: 80 };
    let other_port = Endpoint::V4 { ip: 1, port: 81 };
    let other_ip = Endpoint::V4 { ip: 2, port: 80 };
    let v6 = Endpoint::V6 { ip_v6: 1, port: 80, flowinfo: 0, scope_id: 0 };
    let scoped = Endpoint::V6 { ip_v6: 1, port: 80, flowinfo: 0, scope_id: 3 };
    assert_eq!(directory.resolve(v4), Some(0));
    assert_eq!(directory.resolve(other_port), Some(1));
    assert_eq!(directory.resolve(other_ip), Some(2));
    assert_eq!(directory.resolve(v6), Some(3));
    assert_eq!(directory.resolve(scoped), Some(4));
    assert_eq!(directory.resolve(v4), Some(0));
    assert_eq!(v6.port(), 80);
}

#[test]
fn v4_packs_the_octets() {
    assert_eq!(Endpoint::v4(127, 0, 0, 1, 8080), Endpoint::V4 { ip: 0x7f00_0001, port: 8080 });
    assert_eq!(Endpoint::v4(255, 255, 255, 255, 0), Endpoint::V4 { ip: u32::MAX, port: 0 });
    assert_eq!(Endpoint::v4(1, 2, 3, 4, 5).port(), 5);
}

#[test]
fn register_refuses_an_id_in_use() {
    let mut directory = SessionDirectory::new();
    assert_eq!(directory.register(4, at(1)), Ok(()));
    assert_eq!(directory.register(4, at(2)), Err(RegisterError::ClientIdInUse));
    assert_eq!(directory.lookup(4), Some(at(1)));
    assert_eq!(directory.find(at(2)), None);
}

#[test]
fn register_refuses_an_endpoint_in_use() {
    let mut directory = SessionDirectory::new();
    assert_eq!(directory.register(4, at(1)), Ok(()));
    assert_eq!(directory.register(5, at(1)), Err(RegisterError::EndpointInUse));
    assert_eq!(directory.find(at(1)), Some(4));
    assert_eq!(directory.lookup(5), None);
    assert_eq!(directory.next_id(), 5);
}

#[test]
fn registered_ids_are_never_issued() {
    let mut directory = SessionDirectory::new();
    assert_eq!(directory.register(9, at(1)), Ok(()));
    assert_eq!(directory.next_id(), 10);
    assert_eq!(directory.register(3, at(2)), Ok(()));
    assert_eq!(directory.next_id(), 10);
    assert_eq!(directory.resolve(at(3)), Some(10));
}

#[test]
fn no_session_opens_when_every_id_is_issued() {
    let mut directory = SessionDirectory::new();
    assert_eq!(directory.register(u32::MAX - 1, at(1)), Ok(()));
    assert_eq!(directory.next_id(), u32::MAX);
    assert_eq!(directory.resolve(at(2)), None);
    assert_eq!(directory.find(at(2)), None);
    assert_eq!(directory.len(), 1);
    assert_eq!(directory.resolve(at(1)), Some(u32::MAX - 1));
    assert_eq!(directory.register(u32::MAX, at(3)), Ok(()));
    assert_eq!(directory.lookup(u32::MAX), Some(at(3)));
    assert_eq!(directory.resolve(at(4)), None);
}

#[test]
fn removing_an_unknown_client_changes_nothing() {
    let mut directory = SessionDirectory::new();
    directory.resolve(at(1));
    assert_eq!(directory.remove(5), None);
    assert_eq!(directory.len(), 1);
    assert_eq!(directory.lookup(0), Some(at(1)));
}

#[test]
fn connection_ids_count_up_and_stop_at_the_end() {
    let mut counter = 0;
    assert_eq!(get_next_connection_id(&mut counter), Some(0));
    assert_eq!(get_next_connection_id(&mut counter), Some(1));
    assert_eq!(counter, 2);
    let mut counter = u32::MAX - 1;
    assert_eq!(get_next_connection_id(&mut counter), Some(u32::MAX - 1));
    assert_eq!(get_next_connection_id(&mut counter), None);
    assert_eq!(get_next_connection_id(&mut counter), None);
    assert_eq!(counter, u32::MAX);
}
