//! Fills packet batches with the datagrams that come from a QUIC endpoint.

use vstd::prelude::*;

verus! {

/// The longest datagram that fits a packet.
pub const PACKET_DATA_SIZE: usize = 1232;

/// The number of packets in a full batch.
pub const PACKETS_PER_BATCH: usize = 64;

/// The flags of a packet of which nothing is known yet.
pub const FLAGS_EMPTY: u8 = 0b0000_0000;

/// The flags of a packet that answers a repair request.
pub const FLAGS_REPAIR: u8 = 0b0000_0100;

/// An address that a datagram came from.
#[derive(Clone, Copy, Debug, PartialEq, Eq)]
pub enum IpAddress {
    V4([u8; 4]),
    V6([u8; 16]),
}

/// Bytes that came over the network, and from where.
#[derive(Debug, PartialEq, Eq)]
pub struct Datagram {
    pub addr: IpAddress,
    pub port: u16,
    pub bytes: Vec<u8>,
}

/// What is known of a packet besides its bytes.
#[derive(Clone, Copy, Debug, PartialEq, Eq)]
pub struct Meta {
    pub size: usize,
    pub addr: IpAddress,
    pub port: u16,
    pub flags: u8,
}

/// Bytes that were received, and what is known of them.
#[derive(Debug, PartialEq, Eq)]
pub struct Packet {
    pub meta: Meta,
    pub data: Vec<u8>,
}

/// Why no message came from a channel.
#[derive(Clone, Copy, Debug, PartialEq, Eq)]
pub enum RecvFailure {
    /// None came in time.
    Timeout,
    /// None is left and no sender either.
    Disconnected,
}

/// The datagram fits a packet.
pub open spec fn fits_packet(datagram: Datagram) -> bool {
    datagram.bytes@.len() <= PACKET_DATA_SIZE
}

/// The packet that carries a datagram.
pub open spec fn packet_of(datagram: Datagram, flags: u8) -> Packet {
    Packet {
        meta: Meta {
            size: datagram.bytes@.len() as usize,
            addr: datagram.addr,
            port: datagram.port,
            flags,
        },
        data: datagram.bytes,
    }
}

/// The packets of a batch after a datagram has come in: one that is too long is dropped, and so is
/// one that comes when the batch is full.
pub open spec fn offered(packets: Seq<Packet>, datagram: Datagram, flags: u8) -> Seq<Packet> {
    if fits_packet(datagram) && packets.len() < PACKETS_PER_BATCH {
        packets.push(packet_of(datagram, flags))
    } else {
        packets
    }
}

/// No datagram is waited for any more: one came that fits a packet when the batch was full.
pub open spec fn ends_batch(packets: Seq<Packet>, datagram: Datagram) -> bool {
    fits_packet(datagram) && packets.len() >= PACKETS_PER_BATCH
}

/// A packet batch that is being filled.
#[derive(Debug)]
pub struct BatchAssembler {
    packets: Vec<Packet>,
    flags: u8,
}

impl View for BatchAssembler {
    type V = Seq<Packet>;

    closed spec fn view(&self) -> Seq<Packet> {
        self.packets@
    }
}

impl BatchAssembler {
    /// The flags that the packets of the batch get.
    pub closed spec fn flags(&self) -> u8 {
        self.flags
    }

    /// A batch without packets.
    pub fn new(flags: u8) -> (assembler: Self)
        ensures
            assembler@ == Seq::<Packet>::empty(),
            assembler.flags() == flags,
    {
        BatchAssembler { packets: Vec::new(), flags }
    }

    /// Takes in a datagram, and tells whether to wait for another one.
    ///
    /// A datagram that is too long for a packet is dropped. When the batch is full, the next
    /// datagram that would fit is dropped too, and ends the batch.
    pub fn offer(&mut self, datagram: Datagram) -> (more: bool)
        ensures
            final(self)@ == offered(old(self)@, datagram, old(self).flags()),
            final(self).flags() == old(self).flags(),
            more == !ends_batch(old(self)@, datagram),
            more <==> datagram.bytes@.len() > 1232 || old(self)@.len() < 64,
            final(self)@.len() == old(self)@.len() + if datagram.bytes@.len() <= 1232
                && old(self)@.len() < 64 {
                1int
            } else {
                0
            },
    {
        if datagram.bytes.len() > PACKET_DATA_SIZE {
            return true;
        }
        if self.packets.len() >= PACKETS_PER_BATCH {
            return false;
        }
        let meta = Meta {
            size: datagram.bytes.len(),
            addr: datagram.addr,
            port: datagram.port,
            flags: self.flags,
        };
        self.packets.push(Packet { meta, data: datagram.bytes });
        true
    }

    /// The packets of the batch, unless it has none.
    pub fn finish(self) -> (packets: Option<Vec<Packet>>)
        ensures
            match packets {
                Some(packets) => packets@ == self@ && self@.len() > 0,
                None => self@.len() == 0,
            },
    {
        if self.packets.len() > 0 {
            Some(self.packets)
        } else {
            None
        }
    }
}

/// What a receiver does next.
#[derive(Debug)]
pub enum ReceiveStep {
    /// Wait for a message again.
    Poll,
    /// Stop: no message can come any more.
    Return,
    /// Fill the batch, which has been offered the message that came.
    Assemble(BatchAssembler),
}

/// What a receiver does once it has waited for a datagram.
pub fn on_received(received: Result<Datagram, RecvFailure>, flags: u8) -> (step: ReceiveStep)
    ensures
        match received {
            Ok(datagram) => {
                &&& step matches ReceiveStep::Assemble(assembler)
                &&& assembler@ == offered(Seq::empty(), datagram, flags)
                &&& assembler@.len() == if datagram.bytes@.len() <= 1232 {
                    1int
                } else {
                    0
                }
                &&& assembler.flags() == flags
            },
            Err(RecvFailure::Timeout) => step is Poll,
            Err(RecvFailure::Disconnected) => step is Return,
        },
{
    match received {
        Ok(datagram) => {
            let mut assembler = BatchAssembler::new(flags);
            let _ = assembler.offer(datagram);
            ReceiveStep::Assemble(assembler)
        },
        Err(RecvFailure::Timeout) => ReceiveStep::Poll,
        Err(RecvFailure::Disconnected) => ReceiveStep::Return,
    }
}

/// A datagram of up to 1232 bytes that comes to a batch of fewer than 64 packets becomes one packet
/// at the end of the batch, with its bytes, their number, its address and port, and the flags of
/// the batch. Any other datagram leaves the batch as it is. The batch ends exactly when a datagram
/// of up to 1232 bytes comes to 64 packets or more.
pub proof fn law_datagram_becomes_a_packet(packets: Seq<Packet>, datagram: Datagram, flags: u8)
    ensures
        fits_packet(datagram) <==> datagram.bytes@.len() <= 1232,
        ends_batch(packets, datagram) <==> datagram.bytes@.len() <= 1232 && packets.len() >= 64,
        datagram.bytes@.len() <= 1232 && packets.len() < 64 ==> ({
            let after = offered(packets, datagram, flags);
            &&& after.len() == packets.len() + 1
            &&& after.drop_last() == packets
            &&& after.last().data@ == datagram.bytes@
            &&& after.last().meta.size == datagram.bytes@.len()
            &&& after.last().meta.addr == datagram.addr
            &&& after.last().meta.port == datagram.port
            &&& after.last().meta.flags == flags
        }),
        datagram.bytes@.len() > 1232 || packets.len() >= 64 ==> offered(packets, datagram, flags)
            == packets,
{
    assert(offered(packets, datagram, flags).len() > packets.len() ==> offered(
        packets,
        datagram,
        flags,
    ).drop_last() =~= packets);
}

/// The packets of a batch after a sequence of datagrams has come in, one after the other.
pub open spec fn offered_all(datagrams: Seq<Datagram>, flags: u8) -> Seq<Packet>
    decreases datagrams.len(),
{
    if datagrams.len() == 0 {
        Seq::empty()
    } else {
        offered(offered_all(datagrams.drop_last(), flags), datagrams.last(), flags)
    }
}

/// The datagrams that fit a packet, in the order in which they came.
pub open spec fn fitting(datagrams: Seq<Datagram>) -> Seq<Datagram> {
    datagrams.filter(|datagram: Datagram| fits_packet(datagram))
}

/// A batch holds the first datagrams that fit a packet, as many as a full batch has, in the order
/// in which they came.
pub proof fn law_batch_holds_first_fitting(datagrams: Seq<Datagram>, flags: u8)
    ensures
        offered_all(datagrams, flags).len() == if fitting(datagrams).len() < PACKETS_PER_BATCH {
            fitting(datagrams).len()
        } else {
            PACKETS_PER_BATCH as nat
        },
        forall|i: int|
            0 <= i < offered_all(datagrams, flags).len() ==> #[trigger] offered_all(
                datagrams,
                flags,
            )[i] == packet_of(fitting(datagrams)[i], flags),
    decreases datagrams.len(),
{
    reveal(Seq::filter);
    if datagrams.len() > 0 {
        law_batch_holds_first_fitting(datagrams.drop_last(), flags);
    }
}

/// A batch is ended by the first datagram that fits a packet after those that fill it, and that
/// datagram is not in it.
pub proof fn law_batch_ends_after_it_is_full(
    datagrams: Seq<Datagram>,
    next: Datagram,
    flags: u8,
)
    ensures
        ends_batch(offered_all(datagrams, flags), next) <==> fits_packet(next) && fitting(
            datagrams,
        ).len() >= PACKETS_PER_BATCH,
        ends_batch(offered_all(datagrams, flags), next) ==> offered_all(datagrams.push(next), flags)
            == offered_all(datagrams, flags),
{
    law_batch_holds_first_fitting(datagrams, flags);
    assert(datagrams.push(next).drop_last() =~= datagrams);
}

/// No packet of a batch is longer than a packet can be, its size is the length of its bytes, and
/// it has the flags of the batch.
pub proof fn law_packets_are_sound(datagrams: Seq<Datagram>, flags: u8, i: int)
    requires
        0 <= i < offered_all(datagrams, flags).len(),
    ensures
        ({
            let packet = offered_all(datagrams, flags)[i];
            &&& packet.data@.len() <= PACKET_DATA_SIZE
            &&& packet.meta.size == packet.data@.len()
            &&& packet.meta.flags == flags
        }),
    decreases datagrams.len(),
{
    if i < offered_all(datagrams.drop_last(), flags).len() {
        law_packets_are_sound(datagrams.drop_last(), flags, i);
    }
}

} // verus!
