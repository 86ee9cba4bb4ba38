use realm::addr::IpAddress;
use realm::addr::SockAddr;
use realm::udp::batch_bytes;
use realm::udp::Packet;
use realm::udp::Registry;
use realm::udp::SockMap;
use realm::udp::RUN_GUARD_CHECK_MS;
use realm::udp::MAX_PACKETS;

fn addr(n: u32) -> SockAddr {
    SockAddr { ip: IpAddress::V4(n), port: 1000 }
}

fn pkt(n: u32, tag: u8) -> Packet {
    Packet { addr: addr(n), cursor: 1, buf: vec![tag] }
}

fn batch(spec: &[(u32, u8)]) -> Vec<Packet> {
    spec.iter().map(|(n, t)| pkt(*n, *t)).collect()
}

fn groups_of(reg: &Registry) -> Vec<Vec<(u32, u8)>> {
    let mut out = Vec::new();
    let mut it = reg.group_iter();
    while let Some(g) = it.next() {
        out.push(
            g.iter()
                .map(|p| match p.addr.ip {
                    IpAddress::V4(n) => (n, p.buf[0]),
                    IpAddress::V6(_) => unreachable!(),
                })
                .collect(),
        );
    }
    out
}

#[test]
fn a_new_registry_is_empty() {
    let mut reg = Registry::new(MAX_PACKETS);
    assert_eq!(reg.count(), 0);
    assert!(reg.iter().is_empty());
    reg.group_by_addr();
    assert!(groups_of(&reg).is_empty());
    let none = Registry::new(0);
    assert_eq!(none.count(), 0);
}

#[test]
fn one_source_is_one_group() {
    let mut reg = Registry::new(8);
    reg.receive(batch(&[(1, 0), (1, 1), (1, 2)]));
    assert_eq!(reg.count(), 3);
    reg.group_by_addr();
    assert_eq!(groups_of(&reg), vec![vec![(1, 0), (1, 1), (1, 2)]]);
    let mut one = Registry::new(8);
    one.receive(batch(&[(5, 9)]));
    one.group_by_addr();
    assert_eq!(groups_of(&one), vec![vec![(5, 9)]]);
}

#[test]
fn datagrams_are_grouped_by_source() {
    let mut reg = Registry::new(8);
    reg.receive(batch(&[(1, 0), (2, 1), (3, 2), (1, 3), (2, 4), (1, 5)]));
    reg.group_by_addr();
    let groups = groups_of(&reg);
    // the first datagram's source comes first, with all its datagrams
    assert_eq!(groups[0], vec![(1, 0), (1, 3), (1, 5)]);
    assert_eq!(groups.len(), 3);
    // every datagram is in exactly one group, and a group has one source
    let mut all: Vec<(u32, u8)> = groups.iter().flatten().copied().collect();
    all.sort();
    assert_eq!(all, vec![(1, 0), (1, 3), (1, 5), (2, 1), (2, 4), (3, 2)]);
    for g in &groups {
        assert!(g.iter().all(|(n, _)| *n == g[0].0));
    }
    let mut sources: Vec<u32> = groups.iter().map(|g| g[0].0).collect();
    sources.sort();
    assert_eq!(sources, vec![1, 2, 3]);
    // the batch itself holds the groups side by side
    let flat: Vec<u32> = reg
        .iter()
        .iter()
        .map(|p| match p.addr.ip {
            IpAddress::V4(n) => n,
            IpAddress::V6(_) => unreachable!(),
        })
        .collect();
    assert_eq!(flat.len(), 6);
    assert_eq!(&flat[..3], &[1, 1, 1]);
}

#[test]
fn the_port_tells_sources_apart() {
    let mut reg = Registry::new(4);
    let a = Packet { addr: SockAddr { ip: IpAddress::V4(1), port: 1 }, cursor: 0, buf: vec![] };
    let b = Packet { addr: SockAddr { ip: IpAddress::V4(1), port: 2 }, cursor: 0, buf: vec![] };
    let c = Packet { addr: SockAddr { ip: IpAddress::V4(1), port: 1 }, cursor: 0, buf: vec![] };
    reg.receive(vec![a, b, c]);
    reg.group_by_addr();
    let mut it = reg.group_iter();
    assert_eq!(it.next().unwrap().len(), 2);
    assert_eq!(it.next().unwrap().len(), 1);
    assert!(it.next().is_none());
    assert!(it.next().is_none());
}

#[test]
fn a_new_batch_takes_the_place_of_the_old() {
    let mut reg = Registry::new(4);
    reg.receive(batch(&[(1, 0), (2, 1), (1, 2)]));
    reg.group_by_addr();
    reg.receive(batch(&[(7, 7)]));
    assert_eq!(reg.count(), 1);
    assert!(groups_of(&reg).is_empty());
    reg.group_by_addr();
    assert_eq!(groups_of(&reg), vec![vec![(7, 7)]]);
    // a full batch
    let mut full = Registry::new(3);
    full.receive(batch(&[(3, 0), (2, 1), (3, 2)]));
    full.group_by_addr();
    assert_eq!(groups_of(&full), vec![vec![(3, 0), (3, 2)], vec![(2, 1)]]);
}

#[test]
fn bytes_of_a_batch() {
    let pkts = vec![
        Packet { addr: addr(1), cursor: 10, buf: vec![0; 10] },
        Packet { addr: addr(1), cursor: 0, buf: vec![] },
        Packet { addr: addr(2), cursor: 65_535, buf: vec![] },
    ];
    assert_eq!(batch_bytes(&pkts), 65_545);
    assert_eq!(batch_bytes(&[]), 0);
    let p = Packet::new();
    assert_eq!(p.cursor, 0);
    assert!(p.buf.is_empty());
}

#[test]
fn a_source_has_one_socket() {
    let mut map: SockMap<&str> = SockMap::new();
    assert_eq!(map.len(), 0);
    assert!(map.find(&addr(1)).is_none());
    // the first datagram of a source makes its socket
    assert!(map.insert(addr(1), "first"));
    assert!(map.insert(addr(2), "other"));
    // the next finds it, and a second socket does not go in
    assert!(!map.insert(addr(1), "second"));
    assert_eq!(map.find(&addr(1)), Some(&"first"));
    assert_eq!(map.find(&addr(2)), Some(&"other"));
    assert_eq!(map.len(), 2);
    // the return path ends
    assert_eq!(map.remove(&addr(1)), Some("first"));
    assert_eq!(map.remove(&addr(1)), None);
    assert!(map.find(&addr(1)).is_none());
    assert_eq!(map.len(), 1);
    // and the source may come again
    assert!(map.insert(addr(1), "again"));
    assert_eq!(map.find(&addr(1)), Some(&"again"));
    assert_eq!(RUN_GUARD_CHECK_MS, 500);
}

#[test]
fn the_first_group_keeps_the_order_of_arrival() {
    let mut reg = Registry::new(16);
    reg.receive(batch(&[(4, 0), (9, 1), (9, 2), (4, 3), (7, 4), (4, 5), (9, 6), (4, 7)]));
    reg.group_by_addr();
    let groups = groups_of(&reg);
    assert_eq!(groups[0], vec![(4, 0), (4, 3), (4, 5), (4, 7)]);
    assert_eq!(groups.iter().map(|g| g.len()).sum::<usize>(), 8);
}

#[test]
fn every_group_keeps_the_order_of_arrival() {
    let mut reg = Registry::new(8);
    reg.receive(batch(&[(1, 1), (2, 1), (2, 2), (1, 2)]));
    reg.group_by_addr();
    assert_eq!(groups_of(&reg), vec![vec![(1, 1), (1, 2)], vec![(2, 1), (2, 2)]]);

    let mut long = Registry::new(16);
    long.receive(batch(&[(4, 0), (9, 1), (9, 2), (4, 3), (7, 4), (4, 5), (9, 6), (4, 7)]));
    long.group_by_addr();
    assert_eq!(
        groups_of(&long),
        vec![
            vec![(4, 0), (4, 3), (4, 5), (4, 7)],
            vec![(9, 1), (9, 2), (9, 6)],
            vec![(7, 4)],
        ]
    );
}

#[test]
fn the_groups_stand_in_the_order_in_which_their_sources_came() {
    let mut reg = Registry::new(8);
    reg.receive(batch(&[(1, 1), (2, 1), (1, 2), (3, 1)]));
    reg.group_by_addr();
    assert_eq!(groups_of(&reg), vec![vec![(1, 1), (1, 2)], vec![(2, 1)], vec![(3, 1)]]);
    let flat: Vec<(u32, u8)> = groups_of(&reg).into_iter().flatten().collect();
    assert_eq!(flat, vec![(1, 1), (1, 2), (2, 1), (3, 1)]);
    // a full batch in which the sources take turns
    let turns: Vec<(u32, u8)> = (0..MAX_PACKETS).map(|i| ((i % 3) as u32, (i / 3) as u8)).collect();
    let mut full = Registry::new(MAX_PACKETS);
    full.receive(batch(&turns));
    full.group_by_addr();
    let groups = groups_of(&full);
    assert_eq!(groups.len(), 3);
    for (source, group) in groups.iter().enumerate() {
        let expected: Vec<(u32, u8)> =
            turns.iter().copied().filter(|(n, _)| *n == source as u32).collect();
        assert_eq!(group, &expected);
    }
}
