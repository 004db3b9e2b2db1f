use shred_cache::fetch::{
    is_time_up, live_shreds, varun_should_discard_shred, FetchTimer, FetchedPacket, PacketContent,
    ShredFetchStats, DEFAULT_MS_PER_SLOT,
};
use shred_cache::receive::RecvFailure;
use shred_cache::shred::{Shred, ShredCode};
use shred_cache::sigverify::{clone_run_shred_sigverify, goes_on, Error, SendFailure};

fn shred(index: u32) -> Shred {
    Shred::ShredCode(ShredCode { slot: 1, index, fec_set_index: 0, payload: vec![index as u8] })
}

fn packet(discard: bool, content: PacketContent) -> FetchedPacket {
    FetchedPacket { discard, content }
}

#[test]
fn slot_time_is_that_of_the_network() {
    assert_eq!(DEFAULT_MS_PER_SLOT, solana_sdk::clock::DEFAULT_MS_PER_SLOT);
}

#[test]
fn batches_are_looked_at_once_a_slot() {
    let mut stats = ShredFetchStats::new();
    assert!(!stats.on_batch(0, 5));
    assert!(!stats.on_batch(400, 5));
    assert_eq!(stats.shred_count, 0);
    assert!(stats.on_batch(401, 5));
    assert_eq!(stats.shred_count, 5);
    assert!(stats.on_batch(u64::MAX as u128, 7));
    assert_eq!(stats.shred_count, 12);
    assert!(!stats.on_batch(1 << 64, 7));
    assert!(!stats.on_batch((1 << 64) + 400, 7));
    assert!(stats.on_batch((1 << 64) + 401, 1));
    assert_eq!(stats.shred_count, 13);
}

#[test]
fn looks_are_more_than_a_slot_apart() {
    const MILLI: u128 = 1_000_000;
    let mut stats = ShredFetchStats::new();
    let mut timer = FetchTimer::new(7);
    let times: [(u128, bool); 8] = [
        (7, false),
        (7 + 401 * MILLI - 1, false),
        (7 + 401 * MILLI, true),
        (7 + 402 * MILLI, false),
        (7 + 802 * MILLI - 1, false),
        (3, false),
        (7 + 900 * MILLI, true),
        (7 + 1_301 * MILLI, true),
    ];
    for (now, due) in times {
        assert_eq!(timer.is_up(now), due);
        assert_eq!(timer.on_batch(now, 2, &mut stats), due);
        assert!(!timer.is_up(now) || !due);
    }
    assert_eq!(stats.shred_count, 6);
    assert!(!is_time_up(400));
    assert!(is_time_up(401));
}

#[test]
fn only_packets_without_bytes_for_a_shred_are_discarded() {
    assert!(varun_should_discard_shred(&packet(false, PacketContent::NoShred)));
    assert!(!varun_should_discard_shred(&packet(true, PacketContent::Malformed)));
    assert!(!varun_should_discard_shred(&packet(false, PacketContent::Parsed(shred(1)))));
}

#[test]
fn live_shreds_leave_out_discarded_and_malformed_packets() {
    let packets = vec![
        packet(false, PacketContent::Parsed(shred(1))),
        packet(true, PacketContent::Parsed(shred(2))),
        packet(false, PacketContent::NoShred),
        packet(false, PacketContent::Malformed),
        packet(false, PacketContent::Parsed(shred(3))),
    ];
    assert_eq!(live_shreds(packets), vec![shred(1), shred(3)]);
    assert_eq!(live_shreds(vec![]), vec![]);
}

#[test]
fn round_takes_the_shreds_of_all_batches_in_order() {
    let batches = vec![
        vec![
            packet(false, PacketContent::Parsed(shred(1))),
            packet(true, PacketContent::Parsed(shred(2))),
            packet(false, PacketContent::NoShred),
        ],
        vec![],
        vec![
            packet(false, PacketContent::Malformed),
            packet(false, PacketContent::Parsed(shred(3))),
        ],
    ];
    assert_eq!(clone_run_shred_sigverify(Ok(batches)), Ok(vec![shred(1), shred(2), shred(3)]));
    assert_eq!(clone_run_shred_sigverify(Ok(vec![])), Ok(vec![]));
}

#[test]
fn round_passes_on_why_nothing_came() {
    assert_eq!(clone_run_shred_sigverify(Err(RecvFailure::Timeout)), Err(Error::RecvTimeout));
    assert_eq!(
        clone_run_shred_sigverify(Err(RecvFailure::Disconnected)),
        Err(Error::RecvDisconnected)
    );
    assert_eq!(Error::from(SendFailure), Error::SendError);
}

#[test]
fn stage_stops_when_a_channel_is_gone() {
    assert!(goes_on(&Ok(())));
    assert!(goes_on(&Err(Error::RecvTimeout)));
    assert!(!goes_on(&Err(Error::RecvDisconnected)));
    assert!(!goes_on(&Err(Error::SendError)));
}
