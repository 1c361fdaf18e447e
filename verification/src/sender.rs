use crate::frame::{encode_size, le_bytes};
use vstd::prelude::*;
use vstd::slice::slice_subrange;

verus! {

/// What a sender has done: the payload length it announced and the number
/// of payload bytes it has passed on to the wire.
pub ghost struct Sending {
    pub announced: nat,
    pub sent: nat,
}

/// How many leading bytes of a chunk read from the source are transmitted:
/// all of it, unless that would exceed the announced length.
pub open spec fn send_share(s: Sending, chunk: Seq<u8>) -> int {
    if chunk.len() <= s.announced - s.sent {
        chunk.len() as int
    } else {
        s.announced - s.sent
    }
}

/// The sending side of one transfer. The payload length is fixed when the
/// sender is made; no more than that many bytes ever leave it, however much
/// the source delivers.
pub struct Sender {
    announced: u64,
    sent: u64,
}

impl View for Sender {
    type V = Sending;

    closed spec fn view(&self) -> Sending {
        Sending { announced: self.announced as nat, sent: self.sent as nat }
    }
}

impl Sender {
    /// No more has been sent than was announced.
    pub open spec fn wf(&self) -> bool {
        self@.sent <= self@.announced
    }

    /// A sender for a source that is `size` bytes long.
    pub fn new(size: u64) -> (s: Sender)
        ensures
            s.wf(),
            s@ == (Sending { announced: size as nat, sent: 0 }),
    {
        Sender { announced: size, sent: 0 }
    }

    /// The eight bytes that go on the wire before the first payload byte.
    pub fn prefix(&self) -> (bytes: [u8; 8])
        ensures
            self@.announced <= u64::MAX,
            bytes@ == le_bytes(self@.announced as u64),
    {
        encode_size(self.announced)
    }

    /// The payload length that the prefix announces.
    pub fn announced(&self) -> (n: u64)
        ensures
            n == self@.announced,
    {
        self.announced
    }

    /// The number of payload bytes passed on to the wire so far.
    pub fn sent(&self) -> (n: u64)
        ensures
            n == self@.sent,
    {
        self.sent
    }

    /// How many bytes to read from the source next, given room for `room`
    /// bytes: never more than the announced length still allows.
    pub fn want(&self, room: usize) -> (n: usize)
        requires
            self.wf(),
        ensures
            n == if self@.announced - self@.sent <= room {
                self@.announced - self@.sent
            } else {
                room as int
            },
    {
        let missing: u64 = self.announced - self.sent;
        if missing <= room as u64 { missing as usize } else { room }
    }

    /// Whether the whole announced payload has been passed on.
    pub fn is_complete(&self) -> (b: bool)
        requires
            self.wf(),
        ensures
            b <==> self@.sent == self@.announced,
    {
        self.sent == self.announced
    }

    /// Takes a chunk read from the source and returns the part of it to
    /// transmit: the whole chunk, or its start up to the announced length.
    pub fn forward<'a>(&mut self, chunk: &'a [u8]) -> (out: &'a [u8])
        requires
            old(self).wf(),
        ensures
            final(self).wf(),
            final(self)@.announced == old(self)@.announced,
            final(self)@.sent == old(self)@.sent + send_share(old(self)@, chunk@),
            out@ == chunk@.take(send_share(old(self)@, chunk@)),
    {
        let missing: u64 = self.announced - self.sent;
        let n: usize = if chunk.len() as u64 <= missing { chunk.len() } else { missing as usize };
        self.sent = self.sent + n as u64;
        slice_subrange(chunk, 0, n)
    }
}

} // verus!
