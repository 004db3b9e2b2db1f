use shred_cache::receive::{
    on_received, BatchAssembler, Datagram, IpAddress, Meta, Packet, ReceiveStep, RecvFailure,
    FLAGS_EMPTY, FLAGS_REPAIR, PACKETS_PER_BATCH, PACKET_DATA_SIZE,
};

fn datagram(port: u16, len: usize) -> Datagram {
    Datagram { addr: IpAddress::V4([10, 0, 0, 1]), port, bytes: vec![port as u8; len] }
}

#[test]
fn constants_are_those_of_the_network() {
    assert_eq!(PACKET_DATA_SIZE, solana_sdk::packet::PACKET_DATA_SIZE);
    assert_eq!(PACKETS_PER_BATCH, solana_perf::packet::PACKETS_PER_BATCH);
    assert_eq!(FLAGS_EMPTY, solana_sdk::packet::PacketFlags::empty().bits());
    assert_eq!(FLAGS_REPAIR, solana_sdk::packet::PacketFlags::REPAIR.bits());
}

#[test]
fn packet_carries_the_datagram() {
    let mut assembler = BatchAssembler::new(FLAGS_REPAIR);
    let addr = IpAddress::V6([7; 16]);
    assert!(assembler.offer(Datagram { addr, port: 8001, bytes: vec![1, 2, 3] }));
    let meta = Meta { size: 3, addr, port: 8001, flags: FLAGS_REPAIR };
    assert_eq!(assembler.finish(), Some(vec![Packet { meta, data: vec![1, 2, 3] }]));
}

#[test]
fn datagrams_that_are_too_long_are_dropped() {
    let mut assembler = BatchAssembler::new(FLAGS_EMPTY);
    assert!(assembler.offer(datagram(1, PACKET_DATA_SIZE + 1)));
    assert!(assembler.offer(datagram(2, PACKET_DATA_SIZE)));
    assert!(assembler.offer(datagram(3, 0)));
    let packets = assembler.finish().unwrap();
    let ports: Vec<u16> = packets.iter().map(|packet| packet.meta.port).collect();
    assert_eq!(ports, vec![2, 3]);
    assert_eq!(packets[0].meta.size, 1232);
    assert_eq!(packets[0].data.len(), 1232);
}

#[test]
fn empty_batch_is_not_handed_out() {
    let mut assembler = BatchAssembler::new(FLAGS_EMPTY);
    assert!(assembler.offer(datagram(1, PACKET_DATA_SIZE + 1)));
    assert_eq!(assembler.finish(), None);
}

#[test]
fn full_batch_drops_one_more_datagram_and_ends() {
    let mut assembler = BatchAssembler::new(FLAGS_EMPTY);
    for port in 0..64 {
        assert!(assembler.offer(datagram(port, 1)));
    }
    assert!(assembler.offer(datagram(100, PACKET_DATA_SIZE + 1)));
    assert!(!assembler.offer(datagram(101, 1)));
    let packets = assembler.finish().unwrap();
    assert_eq!(packets.len(), 64);
    for (i, packet) in packets.iter().enumerate() {
        assert_eq!(packet.meta.port as usize, i);
    }
}

#[test]
fn receiver_follows_the_channel() {
    assert!(matches!(on_received(Err(RecvFailure::Timeout), FLAGS_EMPTY), ReceiveStep::Poll));
    assert!(matches!(on_received(Err(RecvFailure::Disconnected), FLAGS_EMPTY), ReceiveStep::Return));
    match on_received(Ok(datagram(5, 2)), FLAGS_REPAIR) {
        ReceiveStep::Assemble(assembler) => {
            let packets = assembler.finish().unwrap();
            assert_eq!(packets.len(), 1);
            assert_eq!(packets[0].meta.flags, FLAGS_REPAIR);
            assert_eq!(packets[0].data, vec![5, 5]);
        }
        step => panic!("{step:?}"),
    }
    match on_received(Ok(datagram(5, 2000)), FLAGS_EMPTY) {
        ReceiveStep::Assemble(assembler) => assert_eq!(assembler.finish(), None),
        step => panic!("{step:?}"),
    }
}
