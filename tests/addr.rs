use pathfind::addr::{sort_ipv6, ConnectionArgs, HostAddr, IpAddress};
use pathfind::character::{Character, CharacterId, MAX_CHARACTERS_PER_PLAYER};

fn v4(last: u8, port: u16) -> HostAddr {
    HostAddr { ip: IpAddress::V4([10, 0, 0, last]), port }
}

fn v6(last: u16, port: u16) -> HostAddr {
    HostAddr { ip: IpAddress::V6([0, 0, 0, 0, 0, 0, 0, last]), port }
}

#[test]
fn preferred_family_first_in_order() {
    let addrs = vec![v4(1, 1), v6(1, 2), v4(2, 3), v6(2, 4)];
    assert_eq!(sort_ipv6(addrs.clone(), true), vec![v6(1, 2), v6(2, 4), v4(1, 1), v4(2, 3)]);
    assert_eq!(sort_ipv6(addrs, false), vec![v4(1, 1), v4(2, 3), v6(1, 2), v6(2, 4)]);
}

#[test]
fn sorting_no_addresses_gives_none() {
    assert!(sort_ipv6(Vec::new(), true).is_empty());
}

#[test]
fn only_other_family_is_kept() {
    let addrs = vec![v4(7, 80), v4(8, 81)];
    assert_eq!(sort_ipv6(addrs.clone(), true), addrs);
}

#[test]
fn family_of_address() {
    assert!(v6(1, 1).is_ipv6());
    assert!(!v4(1, 1).is_ipv6());
}

#[test]
fn default_port() {
    assert_eq!(ConnectionArgs::DEFAULT_PORT, 14004);
}

#[test]
fn character_values() {
    let c = Character { id: Some(CharacterId(3)), alias: "name".to_string() };
    assert_eq!(c.clone(), c);
    assert!(CharacterId(2) < CharacterId(3));
    assert_eq!(MAX_CHARACTERS_PER_PLAYER, 8);
}
