use ntkd::kernel::addressing::{gnode_destination, host_address, level_bits, AddressingError};
use ntkd::net::{Ipv4Addr, Ipv4Net};
use ntkd::space::{HCoord, Naddr, PositionError, Topology, TopologyError, TupleNode};

fn topology() -> Topology {
    Topology::new(vec![4, 2, 2, 2]).unwrap()
}

#[test]
fn host_address_matches_upstream_bit_packing() {
    let naddr = Naddr::new(topology(), vec![1, 0, 1, 0]).unwrap();
    let net = host_address(&naddr).unwrap();
    assert_eq!(net.address, Ipv4Addr::new(10, 0, 0, 9));
    assert_eq!(net.prefix_len, 32);
    let boundary_naddr = Naddr::new(topology(), vec![3, 0, 1, 0]).unwrap();
    let boundary_net = host_address(&boundary_naddr).unwrap();
    assert_eq!(boundary_net.address, Ipv4Addr::new(10, 0, 0, 11));
    assert_eq!(boundary_net.prefix_len, 32);
}

#[test]
fn gnode_destination_zeroes_below_and_shrinks_prefix() {
    let naddr = Naddr::new(topology(), vec![1, 0, 1, 0]).unwrap();
    let net = gnode_destination(&naddr, HCoord::new(1, 1)).unwrap();
    assert_eq!(net.prefix_len, 32 - 2);
    let inside = Naddr::new(topology(), vec![3, 1, 1, 0]).unwrap();
    assert!(net.contains(host_address(&inside).unwrap().address));
    assert!(!net.contains(host_address(&naddr).unwrap().address));
}

#[test]
fn gnode_destination_same_level_as_self_is_own_gnode() {
    let naddr = Naddr::new(topology(), vec![1, 0, 1, 0]).unwrap();
    let net = gnode_destination(&naddr, HCoord::new(0, naddr.pos(0).unwrap())).unwrap();
    assert_eq!(net.prefix_len, 32);
    assert_eq!(net.address, host_address(&naddr).unwrap().address);
}

#[test]
fn rejects_out_of_range_level() {
    let naddr = Naddr::new(topology(), vec![1, 0, 1, 0]).unwrap();
    assert!(matches!(
        gnode_destination(&naddr, HCoord::new(4, 0)),
        Err(AddressingError::LevelOutOfRange {
            level: 4,
            levels: 4
        })
    ));
}

#[test]
fn rejects_topology_too_wide_for_10_8() {
    let wide = Topology::new(vec![2u32; 22]).unwrap();
    let naddr = Naddr::new(wide, vec![0u32; 22]).unwrap();
    assert!(host_address(&naddr).is_ok());
    let too_wide = Topology::new(vec![2u32; 23]).unwrap();
    let naddr = Naddr::new(too_wide, vec![0u32; 23]).unwrap();
    assert!(matches!(
        host_address(&naddr),
        Err(AddressingError::TopologyTooWide { .. })
    ));
    assert_eq!(
        host_address(&naddr),
        Err(AddressingError::TopologyTooWide { needed: 23 })
    );
}

#[test]
fn level_bits_matches_power_of_two_g_exp() {
    assert_eq!(level_bits(1), 0);
    assert_eq!(level_bits(2), 1);
    assert_eq!(level_bits(4), 2);
    assert_eq!(level_bits(8), 3);
    assert_eq!(level_bits(3), 2);
    assert_eq!(level_bits(5), 3);
}

#[test]
fn level_bits_at_the_ends_of_the_range() {
    assert_eq!(level_bits(0), 0);
    assert_eq!(level_bits(0x8000_0000), 31);
    assert_eq!(level_bits(0x8000_0001), 32);
    assert_eq!(level_bits(u32::MAX), 32);
}

#[test]
fn rejects_out_of_range_position_at_every_level() {
    let naddr = Naddr::new(topology(), vec![1, 0, 1, 0]).unwrap();
    for (level, gsize) in [(0u32, 4u32), (1, 2), (2, 2), (3, 2)] {
        let level = level as usize;
        assert!(
            matches!(
                gnode_destination(&naddr, HCoord::new(level, gsize)),
                Err(AddressingError::PositionOutOfRange {
                    level: err_level,
                    pos,
                    gsize: err_gsize,
                }) if err_level == level && pos == gsize && err_gsize == gsize
            ),
            "level {level} (gsize {gsize}) accepted an out-of-range position"
        );
    }
}

#[test]
fn out_of_range_position_no_longer_corrupts_the_adjacent_level() {
    let naddr = Naddr::new(topology(), vec![1, 0, 1, 0]).unwrap();
    assert!(matches!(
        gnode_destination(&naddr, HCoord::new(0, 7)),
        Err(AddressingError::PositionOutOfRange {
            level: 0,
            pos: 7,
            gsize: 4
        })
    ));
}

#[test]
fn every_host_has_its_own_address_inside_the_space() {
    let mut seen: Vec<Ipv4Addr> = Vec::new();
    for a in 0..4 {
        for b in 0..2 {
            for c in 0..2 {
                for d in 0..2 {
                    let naddr = Naddr::new(topology(), vec![a, b, c, d]).unwrap();
                    let address = host_address(&naddr).unwrap().address;
                    assert_eq!(address.octets()[0], 10);
                    assert!(!seen.contains(&address));
                    seen.push(address);
                }
            }
        }
    }
    assert_eq!(seen.len(), 32);
}

#[test]
fn addressing_errors_say_what_is_wrong() {
    assert_eq!(
        AddressingError::LevelOutOfRange { level: 4, levels: 4 }.message(),
        "level 4 is out of range for a 4-level topology"
    );
    assert_eq!(
        AddressingError::TopologyTooWide { needed: 23 }.message(),
        "topology needs 23 address bits (+2 kind bits), only 24 are available in 10.0.0.0/8"
    );
    assert_eq!(
        AddressingError::PositionOutOfRange { level: 0, pos: 7, gsize: 4 }.message(),
        "position 7 at level 0 is out of range: g-node size is 4"
    );
}

#[test]
fn topologies_and_addresses_are_checked() {
    assert_eq!(Topology::new(vec![]).unwrap_err(), TopologyError::Empty);
    assert_eq!(
        Topology::new(vec![4, 0, 0]).unwrap_err(),
        TopologyError::ZeroGsize { level: 1 }
    );
    assert_eq!(
        Naddr::new(topology(), vec![1, 0]).unwrap_err(),
        PositionError::WrongLength { levels: 4, given: 2 }
    );
    assert_eq!(
        Naddr::new(topology(), vec![1, 2, 2, 0]).unwrap_err(),
        PositionError::OutOfRange { level: 1, pos: 2, gsize: 2 }
    );
    assert_eq!(
        TupleNode::new(topology(), vec![4]).unwrap_err(),
        PositionError::OutOfRange { level: 0, pos: 4, gsize: 4 }
    );
    assert_eq!(
        TupleNode::new(topology(), vec![0; 5]).unwrap_err(),
        PositionError::WrongLength { levels: 4, given: 5 }
    );
    let a = Naddr::new(topology(), vec![1, 0, 1, 0]).unwrap();
    let b = Naddr::new(topology(), vec![2, 1, 1, 0]).unwrap();
    assert_eq!(a.hcoord(&b), Some(HCoord::new(1, 1)));
    assert_eq!(a.hcoord(&a.clone()), None);
    assert!(a.is_inside(HCoord::new(2, 1)));
    assert!(!a.is_inside(HCoord::new(2, 0)));
    assert!(!a.is_inside(HCoord::new(9, 0)));
}

#[test]
fn dotted_addresses_are_read_back() {
    for bits in [0u32, 1, 0x0a00_0009, 0xa9fe_0c22, 0xffff_ffff] {
        let address = Ipv4Addr { bits };
        assert_eq!(Ipv4Addr::parse(&address.text()), Some(address));
    }
    assert_eq!(Ipv4Addr::new(169, 254, 12, 34).text(), "169.254.12.34");
    for bad in ["", "1.2.3", "1.2.3.4.5", "256.1.1.1", "01.2.3.4", "1.2.3.a", "1..2.3", " 1.2.3.4"] {
        assert_eq!(Ipv4Addr::parse(bad), None, "{bad}");
    }
}

#[test]
fn networks_hold_what_shares_their_prefix() {
    let net = Ipv4Net { address: Ipv4Addr::new(10, 0, 0, 0), prefix_len: 8 };
    assert!(net.contains(Ipv4Addr::new(10, 255, 1, 2)));
    assert!(!net.contains(Ipv4Addr::new(11, 0, 0, 0)));
    let all = Ipv4Net { address: Ipv4Addr::new(1, 2, 3, 4), prefix_len: 0 };
    assert!(all.contains(Ipv4Addr::new(200, 0, 0, 1)));
    let one = Ipv4Net::host(Ipv4Addr::new(1, 2, 3, 4));
    assert!(one.contains(Ipv4Addr::new(1, 2, 3, 4)));
    assert!(!one.contains(Ipv4Addr::new(1, 2, 3, 5)));
    assert_eq!(one.text(), "1.2.3.4/32");
}
