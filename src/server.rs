//! The server's decisions, apart from its sockets and threads: what an
//! inbound reader does with each read, and how the relay registers peers,
//! plans a fan-out and prunes the connections whose writes failed.
use vstd::prelude::*;
use crate::codec::{is_payload, zero_free, FrameError};
use crate::record::{decode, encode, frame_of, read_payload, record_bytes, Message};
use crate::registry::{others, survivors, texts, with_peer, Registry};

verus! {

/// What one non-blocking read of a frame's worth of bytes gave.
pub enum ReadOutcome {
    /// Bytes were read.
    Frame(Vec<u8>),
    /// Nothing was pending.
    Idle,
    /// The read failed: the peer closed, reset, or the socket broke.
    Closed,
}

/// What an inbound reader does next.
pub enum ReaderStep {
    /// Hand this message to the broadcast channel.
    Forward(Message),
    /// Do nothing this time and poll again.
    Skip,
    /// Stop reading: the connection is gone.
    Disconnect,
}

/// Decides what the inbound reader of the connection from `peer` does with
/// one read. The origin of a forwarded message is `peer`, the address the
/// server saw, never what the client wrote in the record. A frame that is
/// truncated or cannot be read is dropped, and the reader goes on.
pub fn reader_step(peer: &str, outcome: ReadOutcome, frame_size: usize) -> (r: ReaderStep)
    ensures
        match outcome {
            ReadOutcome::Idle => r is Skip,
            ReadOutcome::Closed => r is Disconnect,
            ReadOutcome::Frame(b) => {
                &&& b@.len() < frame_size ==> r is Skip
                &&& b@.len() >= frame_size ==> forall|p: Seq<u8>|
                    is_payload(b@.take(frame_size as int), p) ==> match read_payload(p) {
                        Ok((_, c)) => r matches ReaderStep::Forward(m) && m.from@ == peer@
                            && m.content@ == c,
                        Err(_) => r is Skip,
                    }
            },
        },
{
    match outcome {
        ReadOutcome::Idle => ReaderStep::Skip,
        ReadOutcome::Closed => ReaderStep::Disconnect,
        ReadOutcome::Frame(b) => match decode(b.as_slice(), frame_size) {
            Ok(m) => ReaderStep::Forward(Message { from: peer.to_owned(), content: m.content }),
            Err(_) => ReaderStep::Skip,
        },
    }
}

/// One fan-out pass: the frame to write and the addresses to write it to.
pub struct FanOut {
    pub frame: Vec<u8>,
    pub recipients: Vec<String>,
}

/// The relay's state: the registry of live connections and the frame size
/// agreed with the clients.
pub struct Relay {
    registry: Registry,
    frame_size: usize,
}

impl Relay {
    /// No address is registered twice.
    pub closed spec fn wf(&self) -> bool {
        self.registry.wf()
    }

    /// The registered addresses, in order of acceptance.
    pub closed spec fn peers(&self) -> Seq<Seq<char>> {
        self.registry@
    }

    /// The frame size.
    pub closed spec fn size(&self) -> nat {
        self.frame_size as nat
    }

    /// A relay with no connection yet.
    pub fn new(frame_size: usize) -> (r: Relay)
        ensures
            r.wf(),
            r.peers().no_duplicates(),
            r.peers() == Seq::<Seq<char>>::empty(),
            r.size() == frame_size,
    {
        Relay { registry: Registry::new(), frame_size }
    }

    /// The frame size.
    pub fn frame_size(&self) -> (r: usize)
        ensures
            r == self.size(),
    {
        self.frame_size
    }

    /// The addresses of the live connections.
    pub fn peer_addresses(&self) -> (r: Vec<String>)
        ensures
            texts(r@) == self.peers(),
    {
        self.registry.addresses()
    }

    /// Registers an accepted connection; returns whether its address was new.
    pub fn accept(&mut self, addr: &str) -> (r: bool)
        requires
            old(self).wf(),
        ensures
            final(self).wf(),
            final(self).peers().no_duplicates(),
            final(self).size() == old(self).size(),
            final(self).peers() == with_peer(old(self).peers(), addr@),
            r == !old(self).peers().contains(addr@),
    {
        self.registry.register(addr)
    }

    /// Plans the fan-out of `m`: its frame, and every live connection but
    /// the one it came from.
    pub fn plan_broadcast(&self, m: &Message) -> (r: Result<FanOut, FrameError>)
        ensures
            zero_free(record_bytes(m.from@, m.content@)),
            record_bytes(m.from@, m.content@).len() > self.size() <==> (r matches Err(e) && e
                == FrameError::TooLarge),
            r is Ok <==> record_bytes(m.from@, m.content@).len() <= self.size(),
            r matches Ok(fo) ==> fo.frame@ == frame_of(m.from@, m.content@, self.size())
                && fo.frame@.len() == self.size()
                && texts(fo.recipients@) == others(self.peers(), m.from@)
                && !texts(fo.recipients@).contains(m.from@),
    {
        let frame = encode(m, self.frame_size)?;
        let recipients = self.registry.recipients(m.from.as_str());
        Ok(FanOut { frame, recipients })
    }

    /// Removes the connections whose writes failed in a fan-out pass.
    pub fn finish_broadcast(&mut self, failed: &Vec<String>)
        requires
            old(self).wf(),
        ensures
            final(self).wf(),
            final(self).peers().no_duplicates(),
            final(self).size() == old(self).size(),
            final(self).peers() == survivors(old(self).peers(), texts(failed@)),
    {
        self.registry.prune(failed);
    }

    /// Removes the connection from `addr` once its reader found it closed.
    pub fn disconnect(&mut self, addr: &str)
        requires
            old(self).wf(),
        ensures
            final(self).wf(),
            final(self).peers().no_duplicates(),
            final(self).size() == old(self).size(),
            final(self).peers() == survivors(old(self).peers(), seq![addr@]),
    {
        let gone = vec![addr.to_owned()];
        assert(texts(gone@) =~= seq![addr@]);
        self.registry.prune(&gone);
    }
}

} // verus!
