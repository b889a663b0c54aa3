use ccze_rs::xdp::{BlockTarget, IpAddress, SocketAddress, XdpNative, XdpShield, XdpState};

fn ip(a: u8, b: u8, c: u8, d: u8) -> IpAddress {
    IpAddress::V4(((a as u32) << 24) | ((b as u32) << 16) | ((c as u32) << 8) | (d as u32))
}

#[test]
fn test_create_xdp_filter() {
    let shield = XdpShield::new();
    let filter = shield.create_filter("eth0", 100);

    assert_eq!(filter.interface, "eth0");
    assert_eq!(filter.priority, 100);
    assert_eq!(filter.targets().len(), 0);
    assert!(matches!(filter.state, XdpState::Inactive));
}

#[test]
fn test_add_remove_target() {
    let shield = XdpShield::new();
    let mut filter = shield.create_filter("eth0", 100);

    let target = BlockTarget::Ip(ip(192, 168, 1, 100));
    filter.add_target(target.clone());

    assert!(filter.contains(&target));

    let removed = filter.remove_target(&target);
    assert!(removed);
    assert!(!filter.contains(&target));
}

#[test]
fn test_add_get_filter() {
    let mut shield = XdpShield::new();
    let filter = shield.create_filter("eth0", 100);

    shield.add_filter(filter).unwrap();

    let retrieved = shield.get_filter("eth0").unwrap();
    assert!(retrieved.is_some());
    assert_eq!(retrieved.unwrap().interface, "eth0");
}

#[test]
fn test_activate_deactivate_filter() {
    let mut shield = XdpShield::new();
    let filter = shield.create_filter("eth0", 100);

    shield.add_filter(filter).unwrap();
    shield.activate_filter("eth0").unwrap();

    let activated = shield.get_filter("eth0").unwrap().unwrap();
    assert!(activated.is_active());

    shield.deactivate_filter("eth0").unwrap();

    let deactivated = shield.get_filter("eth0").unwrap().unwrap();
    assert!(!deactivated.is_active());
}

#[test]
fn test_is_blocked() {
    let mut shield = XdpShield::new();
    let mut filter = shield.create_filter("eth0", 100);

    let target_ip = ip(192, 168, 1, 100);
    let target = BlockTarget::Ip(target_ip);
    filter.add_target(target);

    shield.add_filter(filter).unwrap();
    shield.activate_filter("eth0").unwrap();

    assert!(shield.is_blocked(&target_ip).unwrap());

    let safe_ip = ip(10, 0, 0, 1);
    assert!(!shield.is_blocked(&safe_ip).unwrap());
}

#[test]
fn xdp_duplicate_interface_is_refused() {
    let mut shield = XdpShield::new();
    let first = shield.create_filter("eth0", 100);
    let second = shield.create_filter("eth0", 5);
    shield.add_filter(first).unwrap();
    assert_eq!(
        shield.add_filter(second),
        Err("Filter already exists for interface eth0".to_string())
    );
    assert_eq!(shield.list_filters().unwrap().len(), 1);
}

#[test]
fn xdp_missing_interface_errors() {
    let mut shield = XdpShield::new();
    assert_eq!(
        shield.activate_filter("wlan0"),
        Err("Filter not found for interface wlan0".to_string())
    );
    assert_eq!(
        shield.deactivate_filter("wlan0"),
        Err("Filter not found for interface wlan0".to_string())
    );
    assert_eq!(
        shield.add_target_to_filter("wlan0", BlockTarget::Mac([1, 2, 3, 4, 5, 6])),
        Err("Filter not found for interface wlan0".to_string())
    );
    assert_eq!(shield.remove_filter("wlan0"), Ok(false));
    assert!(shield.get_filter("wlan0").unwrap().is_none());
}

#[test]
fn xdp_target_added_through_shield_blocks() {
    let mut shield = XdpShield::new();
    let filter = shield.create_filter("ens3", 7);
    shield.add_filter(filter).unwrap();
    let addr = IpAddress::V6(1);
    assert!(!shield.is_blocked(&addr).unwrap());
    shield.add_target_to_filter("ens3", BlockTarget::Ip(addr)).unwrap();
    shield.add_target_to_filter("ens3", BlockTarget::Ip(addr)).unwrap();
    assert!(shield.is_blocked(&addr).unwrap());
    assert_eq!(shield.get_filter("ens3").unwrap().unwrap().targets().len(), 1);
    assert_eq!(shield.remove_filter("ens3"), Ok(true));
    assert!(!shield.is_blocked(&addr).unwrap());
}

#[test]
fn xdp_targets_compare_by_content() {
    let mut shield = XdpShield::new();
    let mut filter = shield.create_filter("eth1", 1);
    filter.add_target(BlockTarget::PayloadPattern(vec![0xde, 0xad]));
    filter.add_target(BlockTarget::IpRange("10.0.0.0/8".to_string()));
    filter.add_target(BlockTarget::IpPort(SocketAddress::V4 { ip: 0x0a000001, port: 22 }));
    filter.add_target(BlockTarget::PayloadPattern(vec![0xde, 0xad]));
    assert_eq!(filter.targets().len(), 3);
    assert!(filter.contains(&BlockTarget::IpRange("10.0.0.0/8".to_string())));
    assert!(!filter.contains(&BlockTarget::IpPort(SocketAddress::V4 { ip: 0x0a000001, port: 23 })));
    assert!(!filter.remove_target(&BlockTarget::PayloadPattern(vec![0xde])));
    assert!(filter.remove_target(&BlockTarget::PayloadPattern(vec![0xde, 0xad])));
    assert_eq!(filter.targets().len(), 2);
    shield.add_filter(filter).unwrap();
}

#[test]
fn xdp_native_initialize_adds_one_filter_per_interface() {
    let mut native = XdpNative::new();
    let interfaces = vec!["eth0".to_string(), "ens3".to_string()];
    assert_eq!(native.initialize(true, &interfaces), Ok(()));
    let filters = native.shield().list_filters().unwrap();
    assert_eq!(filters.len(), 2);
    assert_eq!(filters[0].interface, "eth0");
    assert_eq!(filters[1].interface, "ens3");
    assert_eq!(filters[1].priority, 100);

    let mut again = XdpNative::new();
    assert_eq!(again.initialize(false, &interfaces), Ok(()));
    assert_eq!(again.shield().list_filters().unwrap().len(), 0);

    let twice = vec!["eth0".to_string(), "eth0".to_string()];
    let mut dup = XdpNative::new();
    assert_eq!(
        dup.initialize(true, &twice),
        Err("Filter already exists for interface eth0".to_string())
    );
}
