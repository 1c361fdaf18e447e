use crate::error::TransferError;
use crate::frame::{decode_size, le_value, lemma_bytes_of_value, PREFIX_LEN};
use vstd::prelude::*;
use vstd::slice::slice_subrange;

verus! {

/// What a receiver has taken in: the prefix bytes collected so far and the
/// number of payload bytes it has passed on to the sink.
pub ghost struct Progress {
    pub header: Seq<u8>,
    pub written: nat,
}

/// The progress of a receiver that has seen nothing.
pub open spec fn start() -> Progress {
    Progress { header: Seq::empty(), written: 0 }
}

/// How many bytes the receiver still needs: the rest of the prefix while it
/// is incomplete, the rest of the announced payload after that.
pub open spec fn wanted(p: Progress) -> int {
    if p.header.len() < PREFIX_LEN {
        PREFIX_LEN - p.header.len()
    } else {
        le_value(p.header) - p.written
    }
}

/// Progress that a receiver can actually reach.
pub open spec fn reachable(p: Progress) -> bool {
    &&& p.header.len() <= PREFIX_LEN
    &&& p.header.len() < PREFIX_LEN ==> p.written == 0
    &&& p.header.len() == PREFIX_LEN ==> p.written <= le_value(p.header)
}

/// How many leading bytes of `chunk` go into the prefix.
pub open spec fn header_share(p: Progress, chunk: Seq<u8>) -> int {
    if PREFIX_LEN - p.header.len() <= chunk.len() {
        PREFIX_LEN - p.header.len()
    } else {
        chunk.len() as int
    }
}

/// How many bytes of `chunk`, after those that go into the prefix, go to
/// the sink: none while the prefix is incomplete, and never more than the
/// announced length leaves room for.
pub open spec fn payload_share(p: Progress, chunk: Seq<u8>) -> int {
    let h = header_share(p, chunk);
    let header = p.header + chunk.take(h);
    if header.len() < PREFIX_LEN {
        0
    } else if chunk.len() - h <= le_value(header) - p.written {
        chunk.len() - h
    } else {
        le_value(header) - p.written
    }
}

/// The progress after `chunk` has arrived.
pub open spec fn absorb(p: Progress, chunk: Seq<u8>) -> Progress {
    Progress {
        header: p.header + chunk.take(header_share(p, chunk)),
        written: (p.written + payload_share(p, chunk)) as nat,
    }
}

/// The bytes of `chunk` that are written to the sink when it arrives.
pub open spec fn emitted(p: Progress, chunk: Seq<u8>) -> Seq<u8> {
    let h = header_share(p, chunk);
    chunk.subrange(h, h + payload_share(p, chunk))
}

/// What the receiver reports when the stream closes at progress `p`: the
/// payload length if all of it arrived, else which part was cut short.
pub open spec fn outcome(p: Progress) -> Result<u64, TransferError> {
    if p.header.len() < PREFIX_LEN {
        Err(TransferError::ShortPrefix)
    } else if p.written < le_value(p.header) {
        Err(TransferError::Truncated)
    } else {
        Ok(le_value(p.header) as u64)
    }
}

/// The receiving side of one transfer. It is fed the bytes of the stream in
/// whatever pieces they arrive and says which of them belong in the sink.
pub struct Receiver {
    header: Vec<u8>,
    size: u64,
    written: u64,
}

impl View for Receiver {
    type V = Progress;

    closed spec fn view(&self) -> Progress {
        Progress { header: self.header@, written: self.written as nat }
    }
}

impl Receiver {
    /// The representation agrees with the progress it stands for.
    pub closed spec fn wf(&self) -> bool {
        &&& reachable(self@)
        &&& self.header@.len() == PREFIX_LEN ==> self.size == le_value(self.header@)
    }

    /// A well-formed receiver stands at progress that can be reached: it
    /// has written nothing before the prefix is whole, and never more than
    /// the prefix announces.
    pub proof fn lemma_wf_reachable(&self)
        requires
            self.wf(),
        ensures
            reachable(self@),
    {
    }

    /// A receiver that has seen nothing yet.
    pub fn new() -> (r: Receiver)
        ensures
            r.wf(),
            r@ == start(),
    {
        Receiver { header: Vec::new(), size: 0, written: 0 }
    }

    /// The announced payload length, once the whole prefix has arrived.
    pub fn size(&self) -> (s: Option<u64>)
        requires
            self.wf(),
        ensures
            self@.header.len() == PREFIX_LEN <==> s.is_some(),
            s.is_some() ==> s.unwrap() == le_value(self@.header),
    {
        if self.header.len() == PREFIX_LEN {
            Some(self.size)
        } else {
            None
        }
    }

    /// The number of payload bytes passed on to the sink so far.
    pub fn written(&self) -> (n: u64)
        ensures
            n == self@.written,
    {
        self.written
    }

    /// How many bytes to ask the source for next, given room for `room`
    /// bytes: never more than the transfer still needs, so that nothing
    /// beyond the announced length is consumed. Zero once the transfer is
    /// complete.
    pub fn want(&self, room: usize) -> (n: usize)
        requires
            self.wf(),
        ensures
            n == if wanted(self@) <= room { wanted(self@) } else { room as int },
    {
        if self.header.len() < PREFIX_LEN {
            let missing: usize = PREFIX_LEN - self.header.len();
            if missing <= room { missing } else { room }
        } else {
            let missing: u64 = self.size - self.written;
            if missing <= room as u64 { missing as usize } else { room }
        }
    }

    /// Whether the prefix and the whole announced payload have arrived.
    pub fn is_complete(&self) -> (b: bool)
        requires
            self.wf(),
        ensures
            b <==> outcome(self@).is_ok(),
            b <==> wanted(self@) == 0,
    {
        self.header.len() == PREFIX_LEN && self.written == self.size
    }

    /// Takes in the next piece of the stream and returns the part of it that
    /// belongs in the sink. Bytes that complete the prefix are kept; bytes
    /// past the announced length are dropped.
    pub fn feed<'a>(&mut self, chunk: &'a [u8]) -> (out: &'a [u8])
        requires
            old(self).wf(),
        ensures
            final(self).wf(),
            final(self)@ == absorb(old(self)@, chunk@),
            out@ == emitted(old(self)@, chunk@),
    {
        let missing: usize = PREFIX_LEN - self.header.len();
        let h: usize = if missing <= chunk.len() { missing } else { chunk.len() };
        if h > 0 {
            self.header.extend_from_slice(slice_subrange(chunk, 0, h));
            if self.header.len() == PREFIX_LEN {
                proof {
                    lemma_bytes_of_value(self.header@);
                }
                match decode_size(self.header.as_slice()) {
                    Some(size) => {
                        self.size = size;
                    },
                    None => {},
                }
            }
        }
        assert(self.header@ =~= old(self).header@ + chunk@.take(h as int));
        if self.header.len() < PREFIX_LEN {
            return slice_subrange(chunk, h, h);
        }
        let rest: usize = chunk.len() - h;
        let missing: u64 = self.size - self.written;
        let p: usize = if rest as u64 <= missing { rest } else { missing as usize };
        self.written = self.written + p as u64;
        slice_subrange(chunk, h, h + p)
    }

    /// The verdict when the source closes: the payload length if the
    /// transfer is complete, else the part of the stream that was cut short.
    pub fn finish(&self) -> (r: Result<u64, TransferError>)
        requires
            self.wf(),
        ensures
            r == outcome(self@),
    {
        if self.header.len() < PREFIX_LEN {
            Err(TransferError::ShortPrefix)
        } else if self.written < self.size {
            Err(TransferError::Truncated)
        } else {
            Ok(self.size)
        }
    }
}

} // verus!
