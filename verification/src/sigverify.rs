//! One round of the stage that hands fetched shreds to the cache, and when the stage stops.

use crate::fetch::{lemma_parsed_step, parsed_shreds, FetchedPacket, PacketContent};
use crate::receive::RecvFailure;
use crate::shred::Shred;
use vstd::prelude::*;

verus! {

/// Why a round did not go through.
#[derive(Clone, Copy, Debug, PartialEq, Eq)]
pub enum Error {
    RecvDisconnected,
    RecvTimeout,
    SendError,
}

/// A message could not be sent because no receiver is left.
#[derive(Clone, Copy, Debug, PartialEq, Eq)]
pub struct SendFailure;

impl From<RecvFailure> for Error {
    fn from(err: RecvFailure) -> (error: Self) {
        match err {
            RecvFailure::Timeout => Error::RecvTimeout,
            RecvFailure::Disconnected => Error::RecvDisconnected,
        }
    }
}

impl vstd::std_specs::convert::FromSpecImpl<RecvFailure> for Error {
    open spec fn obeys_from_spec() -> bool {
        true
    }

    open spec fn from_spec(err: RecvFailure) -> Self {
        match err {
            RecvFailure::Timeout => Error::RecvTimeout,
            RecvFailure::Disconnected => Error::RecvDisconnected,
        }
    }
}

impl From<SendFailure> for Error {
    fn from(err: SendFailure) -> (error: Self) {
        Error::SendError
    }
}

impl vstd::std_specs::convert::FromSpecImpl<SendFailure> for Error {
    open spec fn obeys_from_spec() -> bool {
        true
    }

    open spec fn from_spec(err: SendFailure) -> Self {
        Error::SendError
    }
}

/// Each failure to receive or to send is told apart by the error it becomes.
pub proof fn law_failures_keep_their_kind(received: RecvFailure, sent: SendFailure)
    ensures
        <Error as vstd::std_specs::convert::FromSpec<RecvFailure>>::from_spec(
            received,
        ) is RecvTimeout <==> received is Timeout,
        <Error as vstd::std_specs::convert::FromSpec<RecvFailure>>::from_spec(
            received,
        ) is RecvDisconnected <==> received is Disconnected,
        <Error as vstd::std_specs::convert::FromSpec<SendFailure>>::from_spec(sent) is SendError,
{
}

/// The packets of a list of batches, in their order.
pub open spec fn all_packets(batches: Seq<Vec<FetchedPacket>>) -> Seq<FetchedPacket> {
    batches.map_values(|batch: Vec<FetchedPacket>| batch@).flatten()
}

/// One round of the stage: the shreds of the packet batches that came, in their order, or why none
/// came. Packets that are marked as ones to be discarded are not left out.
pub fn clone_run_shred_sigverify(
    received: Result<Vec<Vec<FetchedPacket>>, RecvFailure>,
) -> (shreds: Result<Vec<Shred>, Error>)
    ensures
        match received {
            Ok(batches) => shreds matches Ok(found) && found@ == parsed_shreds(
                all_packets(batches@),
            ),
            Err(RecvFailure::Timeout) => shreds == Err::<Vec<Shred>, Error>(Error::RecvTimeout),
            Err(RecvFailure::Disconnected) => shreds == Err::<Vec<Shred>, Error>(
                Error::RecvDisconnected,
            ),
        },
{
    let batches = match received {
        Ok(batches) => batches,
        Err(err) => {
            return Err(Error::from(err));
        },
    };
    let ghost all = batches@;
    let mut shreds: Vec<Shred> = Vec::new();
    for batch in left: batches
        invariant
            left.seq() == all,
            shreds@ == parsed_shreds(all_packets(all.take(left.index()))),
    {
        let ghost done = all_packets(all.take(left.index()));
        let ghost packets = batch@;
        for packet in rest: batch
            invariant
                rest.seq() == packets,
                shreds@ == parsed_shreds(done + packets.take(rest.index())),
        {
            proof {
                lemma_parsed_step(done + packets.take(rest.index()), packet);
                assert(done + packets.take(rest.index() + 1) =~= (done + packets.take(
                    rest.index(),
                )).push(packet));
            }
            if let PacketContent::Parsed(shred) = packet.content {
                shreds.push(shred);
            }
        }
        proof {
            assert(packets.take(packets.len() as int) =~= packets);
            law_packets_of_next_batch(all.take(left.index()), batch);
            assert(all.take(left.index() + 1) =~= all.take(left.index()).push(batch));
        }
    }
    assert(all.take(all.len() as int) =~= all);
    Ok(shreds)
}

/// No batches have no packets, and one more batch adds its packets behind the others.
pub proof fn law_packets_of_next_batch(
    batches: Seq<Vec<FetchedPacket>>,
    batch: Vec<FetchedPacket>,
)
    ensures
        all_packets(Seq::empty()) == Seq::<FetchedPacket>::empty(),
        all_packets(batches.push(batch)) == all_packets(batches) + batch@,
{
    let view = |batch: Vec<FetchedPacket>| batch@;
    assert(batches.push(batch).map_values(view) =~= batches.map_values(view).push(batch@));
    batches.map_values(view).lemma_flatten_push(batch@);
}

/// Whether the stage goes on after a round: it stops when no packets can come or be sent any more.
pub fn goes_on(round: &Result<(), Error>) -> (more: bool)
    ensures
        more == (*round is Ok || *round == Err::<(), Error>(Error::RecvTimeout)),
{
    match round {
        Ok(()) => true,
        Err(Error::RecvTimeout) => true,
        Err(Error::RecvDisconnected) => false,
        Err(Error::SendError) => false,
    }
}

} // verus!
