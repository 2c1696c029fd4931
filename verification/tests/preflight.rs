use ntkd::kernel::preflight::{
    check, check_nics, netsukuku_address_space, warn_address_space_conflicts, AddressEntry,
    KernelCapabilities, MissingNics,
};
use ntkd::net::{Ipv4Addr, Ipv4Net};

fn names(list: &[&str]) -> Vec<String> {
    list.iter().map(|s| s.to_string()).collect()
}

#[test]
fn fake_netlink_with_loopback_passes_preflight() {
    let able = KernelCapabilities { multiple_routing_tables: true, multipath_routes: true };
    assert_eq!(check(able), Ok(able));
}

#[test]
fn fake_netlink_without_loopback_fails_preflight_with_actionable_message() {
    let err = check(KernelCapabilities { multiple_routing_tables: true, multipath_routes: false })
        .expect_err("no multipath routes");
    assert!(err.message().contains("IP_ROUTE_MULTIPATH"));
    assert!(!err.message().contains("CONFIG_IP_MULTIPLE_TABLES"));
    let err = check(KernelCapabilities { multiple_routing_tables: false, multipath_routes: false })
        .expect_err("nothing is supported");
    assert!(err.remedy().contains(" and IP_ROUTE_MULTIPATH"));
    assert!(err.remedy().starts_with("CONFIG_IP_MULTIPLE_TABLES"));
}

#[test]
fn the_netsukuku_address_space_covers_ten_slash_eight_and_nothing_outside_it() {
    let space = netsukuku_address_space();
    assert!(space.contains(Ipv4Addr::new(10, 0, 0, 1)));
    assert!(space.contains(Ipv4Addr::new(10, 255, 255, 254)));
    assert!(!space.contains(Ipv4Addr::new(192, 168, 1, 1)));
    assert!(!space.contains(Ipv4Addr::new(100, 64, 0, 1)));
}

#[test]
fn an_address_outside_ten_slash_eight_is_not_reported_as_a_conflict() {
    let entries = vec![AddressEntry {
        network: Ipv4Net { address: Ipv4Addr::new(192, 168, 1, 10), prefix_len: 24 },
        interface_index: 1,
    }];
    assert_eq!(warn_address_space_conflicts(&entries), None);
}

#[test]
fn an_address_inside_ten_slash_eight_still_lets_startup_proceed() {
    let entries = vec![
        AddressEntry {
            network: Ipv4Net { address: Ipv4Addr::new(10, 42, 0, 1), prefix_len: 16 },
            interface_index: 1,
        },
        AddressEntry {
            network: Ipv4Net { address: Ipv4Addr::new(192, 168, 1, 10), prefix_len: 24 },
            interface_index: 2,
        },
        AddressEntry {
            network: Ipv4Net { address: Ipv4Addr::new(10, 0, 0, 7), prefix_len: 32 },
            interface_index: 3,
        },
    ];
    assert_eq!(
        warn_address_space_conflicts(&entries).unwrap(),
        "10.42.0.1/16 (ifindex 1), 10.0.0.7/32 (ifindex 3)"
    );
}

#[test]
fn existing_configured_nic_passes_preflight() {
    assert_eq!(
        check_nics(Ok(names(&["enp0s31f6"])), &names(&["enp0s31f6"])),
        Ok(())
    );
}

#[test]
fn missing_configured_nic_names_itself_and_the_available_interfaces() {
    let err = check_nics(Ok(names(&["enp0s31f6"])), &names(&["eth0"]))
        .expect_err("eth0 is not in the link table");
    let message = err.message();
    assert!(message.contains("eth0"));
    assert!(message.contains("enp0s31f6"));
    assert_eq!(
        message,
        "configured interface \"eth0\" does not exist; available interfaces: enp0s31f6 — fix `nics` in the ntkd config"
    );
}

#[test]
fn missing_nics_are_sorted_and_stand_once() {
    let err = check_nics(
        Ok(names(&["wlan0", "lo", "lo", "eth1"])),
        &names(&["eth9", "lo", "eth0", "eth9"]),
    )
    .unwrap_err();
    assert_eq!(
        err,
        MissingNics::NotFound {
            missing: names(&["eth0", "eth9"]),
            available: names(&["eth1", "lo", "wlan0"]),
        }
    );
    assert_eq!(
        err.message(),
        "configured interfaces \"eth0\", \"eth9\" do not exist; available interfaces: eth1, lo, wlan0 — fix `nics` in the ntkd config"
    );
}

#[test]
fn no_configured_nic_needs_no_query() {
    assert_eq!(check_nics(Err("broken".to_string()), &vec![]), Ok(()));
    let err = check_nics(Err("broken".to_string()), &names(&["eth0"])).unwrap_err();
    assert_eq!(err, MissingNics::Query("broken".to_string()));
    assert_eq!(err.message(), "failed to list kernel interfaces: broken");
}
