//! Decides which of the packets that were fetched are looked at, and which hold shreds.

use crate::shred::Shred;
use vstd::prelude::*;

verus! {

/// The time that a slot takes, in milliseconds.
pub const DEFAULT_MS_PER_SLOT: u64 = 400;

/// What the shred layer makes of the bytes of a packet.
#[derive(Debug, PartialEq, Eq)]
pub enum PacketContent {
    /// The packet holds no bytes that could be a shred.
    NoShred,
    /// The packet holds bytes that are no shred.
    Malformed,
    /// The packet holds a shred.
    Parsed(Shred),
}

/// A packet that was fetched.
#[derive(Debug, PartialEq, Eq)]
pub struct FetchedPacket {
    /// Whether the packet is marked as one to be discarded.
    pub discard: bool,
    /// What the shred layer makes of its bytes.
    pub content: PacketContent,
}

/// The number of nanoseconds in a millisecond.
pub const NANOS_PER_MILLI: u128 = 1_000_000;

/// Counts what was fetched.
#[derive(Clone, Copy, Debug, PartialEq, Eq)]
pub struct ShredFetchStats {
    /// The packets of all batches that were looked at.
    pub shred_count: usize,
}

/// The shreds in a list of packets, in their order.
pub open spec fn parsed_shreds(packets: Seq<FetchedPacket>) -> Seq<Shred> {
    packets.filter(|packet: FetchedPacket| packet.content is Parsed).map_values(
        |packet: FetchedPacket| packet.content->Parsed_0,
    )
}

/// The packets that are not marked as ones to be discarded, in their order.
pub open spec fn live_packets(packets: Seq<FetchedPacket>) -> Seq<FetchedPacket> {
    packets.filter(|packet: FetchedPacket| !packet.discard)
}

/// The time is up: more than a slot has passed. Of the time in milliseconds, only the part that
/// fits 64 bits counts.
pub open spec fn is_due(elapsed_millis: u128) -> bool {
    elapsed_millis % 0x1_0000_0000_0000_0000 > DEFAULT_MS_PER_SLOT
}

/// Whether the time is up: more than a slot has passed.
pub fn is_time_up(elapsed_millis: u128) -> (due: bool)
    ensures
        due == is_due(elapsed_millis),
        elapsed_millis <= u64::MAX ==> (due <==> elapsed_millis >= 401),
{
    assert(elapsed_millis as u64 == elapsed_millis % 0x1_0000_0000_0000_0000) by (bit_vector);
    #[verifier::truncate] (elapsed_millis as u64) > DEFAULT_MS_PER_SLOT
}

impl ShredFetchStats {
    /// Nothing counted yet.
    pub fn new() -> (stats: Self)
        ensures
            stats.shred_count == 0,
    {
        ShredFetchStats { shred_count: 0 }
    }

    /// Whether a batch that has just come is looked at, given the time since one last was. If so,
    /// its packets are counted.
    pub fn on_batch(&mut self, elapsed_millis: u128, batch_len: usize) -> (due: bool)
        requires
            is_due(elapsed_millis) ==> old(self).shred_count + batch_len <= usize::MAX,
        ensures
            due == is_due(elapsed_millis),
            elapsed_millis <= u64::MAX ==> (due <==> elapsed_millis >= 401),
            final(self).shred_count == old(self).shred_count + if due {
                batch_len as int
            } else {
                0
            },
    {
        if is_time_up(elapsed_millis) {
            self.shred_count = self.shred_count + batch_len;
            true
        } else {
            false
        }
    }
}

/// The whole milliseconds from one reading of a clock that counts nanoseconds to another; none, if
/// the other one is earlier.
pub open spec fn elapsed_millis(last: u128, now: u128) -> u128 {
    if now >= last {
        ((now - last) / NANOS_PER_MILLI as int) as u128
    } else {
        0
    }
}

/// A batch that comes at the given time is looked at, given when one last was.
pub open spec fn looks_at(last: u128, now: u128) -> bool {
    is_due(elapsed_millis(last, now))
}

/// When a batch was last looked at, by a clock that counts nanoseconds.
#[derive(Clone, Copy, Debug, PartialEq, Eq)]
pub struct FetchTimer {
    last_updated: u128,
}

impl View for FetchTimer {
    type V = u128;

    closed spec fn view(&self) -> u128 {
        self.last_updated
    }
}

impl FetchTimer {
    /// A timer that starts at the given time.
    pub fn new(now: u128) -> (timer: Self)
        ensures
            timer@ == now,
    {
        FetchTimer { last_updated: now }
    }

    /// The whole milliseconds since a batch was last looked at.
    fn elapsed(&self, now: u128) -> (millis: u128)
        ensures
            millis == elapsed_millis(self@, now),
    {
        if now >= self.last_updated {
            (now - self.last_updated) / NANOS_PER_MILLI
        } else {
            0
        }
    }

    /// Whether a batch that comes at the given time is to be looked at.
    pub fn is_up(&self, now: u128) -> (due: bool)
        ensures
            due == looks_at(self@, now),
            self@ <= now < self@ + 0x1_0000_0000_0000_0000 * 1_000_000 ==> (due <==> now - self@
                >= 401 * 1_000_000),
            now < self@ ==> !due,
    {
        proof {
            law_look_goes_by_nanoseconds(self@, now);
        }
        is_time_up(self.elapsed(now))
    }

    /// Whether a batch that comes at the given time is looked at. If so, its packets are counted,
    /// and the time is the one at which a batch was last looked at.
    pub fn on_batch(&mut self, now: u128, batch_len: usize, stats: &mut ShredFetchStats) -> (due:
        bool)
        requires
            looks_at(old(self)@, now) ==> old(stats).shred_count + batch_len <= usize::MAX,
        ensures
            due == looks_at(old(self)@, now),
            old(self)@ <= now < old(self)@ + 0x1_0000_0000_0000_0000 * 1_000_000 ==> (due <==> now
                - old(self)@ >= 401 * 1_000_000),
            now < old(self)@ ==> !due,
            final(self)@ == if due {
                now
            } else {
                old(self)@
            },
            final(stats).shred_count == old(stats).shred_count + if due {
                batch_len as int
            } else {
                0
            },
    {
        proof {
            law_look_goes_by_nanoseconds(self@, now);
        }
        let due = stats.on_batch(self.elapsed(now), batch_len);
        if due {
            self.last_updated = now;
        }
        due
    }
}

/// When a batch was last looked at, once batches have come at the given times, one after the
/// other.
pub open spec fn last_look(start: u128, times: Seq<u128>) -> u128
    decreases times.len(),
{
    if times.len() == 0 {
        start
    } else {
        let last = last_look(start, times.drop_last());
        if looks_at(last, times.last()) {
            times.last()
        } else {
            last
        }
    }
}

/// The batch that comes at the time with the given place in the list is looked at.
pub open spec fn looked_at(start: u128, times: Seq<u128>, i: int) -> bool {
    looks_at(last_look(start, times.take(i)), times[i])
}

/// The time of the last look does not go back as further batches come.
proof fn lemma_last_look_ascends(start: u128, times: Seq<u128>, i: int, j: int)
    requires
        0 <= i <= j <= times.len(),
    ensures
        last_look(start, times.take(i)) <= last_look(start, times.take(j)),
    decreases j,
{
    if i < j {
        lemma_last_look_ascends(start, times, i, j - 1);
        assert(times.take(j).drop_last() =~= times.take(j - 1));
    }
}

/// The milliseconds that have passed are the whole ones among the nanoseconds between the two
/// readings. A batch is looked at exactly when 401 milliseconds or more lie between them, as long
/// as their number fits 64 bits, and never when the clock has gone back.
pub proof fn law_look_goes_by_nanoseconds(last: u128, now: u128)
    ensures
        last <= now ==> elapsed_millis(last, now) * 1_000_000 <= now - last < (elapsed_millis(
            last,
            now,
        ) + 1) * 1_000_000,
        last <= now < last + 0x1_0000_0000_0000_0000 * 1_000_000 ==> (looks_at(last, now) <==> now
            - last >= 401 * 1_000_000),
        now < last ==> elapsed_millis(last, now) == 0 && !looks_at(last, now),
{
}

/// Of the milliseconds that have passed, 401 and more are enough, and 2^64 of them more or less make
/// no difference.
pub proof fn law_time_is_up_after_a_slot(elapsed: u128)
    ensures
        elapsed <= u64::MAX ==> (is_due(elapsed) <==> elapsed >= 401),
        elapsed + 0x1_0000_0000_0000_0000 <= u128::MAX ==> is_due(
            (elapsed + 0x1_0000_0000_0000_0000) as u128,
        ) == is_due(elapsed),
{
}

/// A batch is looked at exactly when more than a slot time has passed, in whole milliseconds, since
/// the start or the last look, as long as that time fits 64 bits.
pub proof fn law_looks_once_the_time_is_up(start: u128, times: Seq<u128>, i: int)
    requires
        0 <= i < times.len(),
        elapsed_millis(last_look(start, times.take(i)), times[i]) <= u64::MAX,
    ensures
        looked_at(start, times, i) <==> elapsed_millis(
            last_look(start, times.take(i)),
            times[i],
        ) > DEFAULT_MS_PER_SLOT,
        last_look(start, times.take(i + 1)) == if looked_at(start, times, i) {
            times[i]
        } else {
            last_look(start, times.take(i))
        },
{
    assert(times.take(i + 1).drop_last() =~= times.take(i));
}

/// Two batches that are looked at are more than a slot time apart, whatever the clock reads, and so
/// is the first of them from the start.
pub proof fn law_looks_are_a_slot_apart(start: u128, times: Seq<u128>, i: int, j: int)
    requires
        0 <= i < j < times.len(),
        looked_at(start, times, i),
        looked_at(start, times, j),
    ensures
        elapsed_millis(times[i], times[j]) > DEFAULT_MS_PER_SLOT,
        elapsed_millis(start, times[i]) > DEFAULT_MS_PER_SLOT,
        times[i] < times[j],
{
    lemma_last_look_ascends(start, times, i + 1, j);
    lemma_last_look_ascends(start, times, 0, i);
    assert(times.take(i + 1).drop_last() =~= times.take(i));
    lemma_elapsed_shrinks(times[i], last_look(start, times.take(j)), times[j]);
    lemma_elapsed_shrinks(start, last_look(start, times.take(i)), times[i]);
}

/// Less time has passed since a later reading of the clock.
proof fn lemma_elapsed_shrinks(earlier: u128, later: u128, now: u128)
    requires
        earlier <= later,
    ensures
        elapsed_millis(later, now) <= elapsed_millis(earlier, now),
{
    if now >= later {
        vstd::arithmetic::div_mod::lemma_div_is_ordered(
            now - later,
            now - earlier,
            NANOS_PER_MILLI as int,
        );
    }
}

/// Whether the packet is to be discarded: it holds no bytes that could be a shred.
pub fn varun_should_discard_shred(packet: &FetchedPacket) -> (discarded: bool)
    ensures
        discarded == (packet.content is NoShred),
{
    match packet.content {
        PacketContent::NoShred => true,
        _ => false,
    }
}

/// The shreds of the packets that are not marked as ones to be discarded, in their order.
pub fn live_shreds(packets: Vec<FetchedPacket>) -> (shreds: Vec<Shred>)
    ensures
        shreds@ == parsed_shreds(live_packets(packets@)),
{
    let ghost all = packets@;
    let mut shreds: Vec<Shred> = Vec::new();
    for packet in rest: packets
        invariant
            rest.seq() == all,
            shreds@ == parsed_shreds(live_packets(all.take(rest.index()))),
    {
        proof {
            lemma_live_step(all.take(rest.index()), packet);
            assert(all.take(rest.index() + 1) =~= all.take(rest.index()).push(packet));
        }
        if !packet.discard {
            if let PacketContent::Parsed(shred) = packet.content {
                shreds.push(shred);
            }
        }
    }
    assert(all.take(all.len() as int) =~= all);
    shreds
}

/// The shreds of two lists of packets, one behind the other, are those of the first and then those
/// of the second, and a single packet gives its shred, if it holds one. The same is true of the
/// packets that are not to be discarded.
pub proof fn law_each_packet_gives_its_own_shred(
    first: Seq<FetchedPacket>,
    second: Seq<FetchedPacket>,
    packet: FetchedPacket,
)
    ensures
        parsed_shreds(first + second) == parsed_shreds(first) + parsed_shreds(second),
        parsed_shreds(live_packets(first + second)) == parsed_shreds(live_packets(first))
            + parsed_shreds(live_packets(second)),
        parsed_shreds(Seq::empty()) == Seq::<Shred>::empty(),
        parsed_shreds(live_packets(Seq::empty())) == Seq::<Shred>::empty(),
        parsed_shreds(seq![packet]) == match packet.content {
            PacketContent::Parsed(shred) => seq![shred],
            _ => Seq::empty(),
        },
        parsed_shreds(live_packets(seq![packet])) == match packet.content {
            PacketContent::Parsed(shred) => if packet.discard {
                Seq::empty()
            } else {
                seq![shred]
            },
            _ => Seq::empty(),
        },
{
    let parsed = |packet: FetchedPacket| packet.content is Parsed;
    let live = |packet: FetchedPacket| !packet.discard;
    reveal(Seq::filter);
    Seq::filter_distributes_over_add(first, second, live);
    Seq::filter_distributes_over_add(first, second, parsed);
    Seq::filter_distributes_over_add(live_packets(first), live_packets(second), parsed);
    assert(parsed_shreds(first + second) =~= parsed_shreds(first) + parsed_shreds(second));
    assert(parsed_shreds(live_packets(first) + live_packets(second)) =~= parsed_shreds(
        live_packets(first),
    ) + parsed_shreds(live_packets(second)));
    assert(parsed_shreds(Seq::empty()) =~= Seq::<Shred>::empty());
    let none = Seq::<FetchedPacket>::empty();
    assert(none.push(packet) =~= seq![packet]);
    assert(live_packets(none) =~= none);
    lemma_parsed_step(none, packet);
    lemma_live_step(none, packet);
}

/// One more packet adds its shred, if it holds one.
pub proof fn lemma_parsed_step(packets: Seq<FetchedPacket>, packet: FetchedPacket)
    ensures
        parsed_shreds(packets.push(packet)) == match packet.content {
            PacketContent::Parsed(shred) => parsed_shreds(packets).push(shred),
            _ => parsed_shreds(packets),
        },
{
    reveal(Seq::filter);
    assert(packets.push(packet).drop_last() =~= packets);
    assert(parsed_shreds(packets.push(packet)) =~= match packet.content {
        PacketContent::Parsed(shred) => parsed_shreds(packets).push(shred),
        _ => parsed_shreds(packets),
    });
}

/// One more packet adds its shred, if it holds one and is not to be discarded.
proof fn lemma_live_step(packets: Seq<FetchedPacket>, packet: FetchedPacket)
    ensures
        parsed_shreds(live_packets(packets.push(packet))) == if packet.discard {
            parsed_shreds(live_packets(packets))
        } else {
            match packet.content {
                PacketContent::Parsed(shred) => parsed_shreds(live_packets(packets)).push(shred),
                _ => parsed_shreds(live_packets(packets)),
            }
        },
{
    reveal(Seq::filter);
    assert(packets.push(packet).drop_last() =~= packets);
    if !packet.discard {
        lemma_parsed_step(live_packets(packets), packet);
    }
}

} // verus!
