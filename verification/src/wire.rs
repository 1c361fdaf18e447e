use crate::error::TransferError;
use crate::frame::{le_bytes, le_value, lemma_value_of_bytes, PREFIX_LEN};
use crate::receiver::{absorb, emitted, outcome, reachable, start, wanted, Progress, Receiver};
use crate::sender::{send_share, Sender, Sending};
use vstd::prelude::*;
use vstd::slice::slice_subrange;

verus! {

/// Everything the sender puts on the wire for `file`: its length as the
/// size prefix, then its bytes.
pub open spec fn wire_image(file: Seq<u8>) -> Seq<u8>
    recommends
        file.len() <= u64::MAX,
{
    le_bytes(file.len() as u64) + file
}

/// The progress of a receiver that has been given `stream`, in whatever
/// pieces.
pub open spec fn progress_after(stream: Seq<u8>) -> Progress {
    if stream.len() < PREFIX_LEN {
        Progress { header: stream, written: 0 }
    } else {
        let size = le_value(stream.take(PREFIX_LEN as int));
        Progress {
            header: stream.take(PREFIX_LEN as int),
            written: if stream.len() - PREFIX_LEN <= size {
                (stream.len() - PREFIX_LEN) as nat
            } else {
                size as nat
            },
        }
    }
}

/// The contents of the sink of a receiver that has been given `stream`: the
/// bytes after the prefix, up to the announced length.
pub open spec fn sink_after(stream: Seq<u8>) -> Seq<u8> {
    if stream.len() < PREFIX_LEN {
        Seq::empty()
    } else {
        stream.subrange(PREFIX_LEN as int, PREFIX_LEN + progress_after(stream).written)
    }
}

/// What receiving `stream` to its end yields: the payload, or the reason
/// why the stream is no complete transfer.
pub open spec fn received(stream: Seq<u8>) -> Result<Seq<u8>, TransferError> {
    match outcome(progress_after(stream)) {
        Ok(_) => Ok(sink_after(stream)),
        Err(e) => Err(e),
    }
}

/// The pieces of a stream joined in order.
pub open spec fn concat(chunks: Seq<Seq<u8>>) -> Seq<u8>
    decreases chunks.len(),
{
    if chunks.len() == 0 {
        Seq::empty()
    } else {
        concat(chunks.drop_last()) + chunks.last()
    }
}

/// The progress of a receiver after it has been fed `chunks` one by one.
pub open spec fn run_progress(chunks: Seq<Seq<u8>>) -> Progress
    decreases chunks.len(),
{
    if chunks.len() == 0 {
        start()
    } else {
        absorb(run_progress(chunks.drop_last()), chunks.last())
    }
}

/// What a receiver has written to its sink after it has been fed `chunks`
/// one by one.
pub open spec fn run_sink(chunks: Seq<Seq<u8>>) -> Seq<u8>
    decreases chunks.len(),
{
    if chunks.len() == 0 {
        Seq::empty()
    } else {
        run_sink(chunks.drop_last()) + emitted(run_progress(chunks.drop_last()), chunks.last())
    }
}

/// One more piece: feeding `chunk` to a receiver that has seen `stream`
/// leaves it where a receiver stands that has seen both, and adds to the
/// sink exactly what the longer stream adds.
pub proof fn lemma_absorb_extends(stream: Seq<u8>, chunk: Seq<u8>)
    ensures
        reachable(progress_after(stream)),
        absorb(progress_after(stream), chunk) == progress_after(stream + chunk),
        sink_after(stream + chunk) == sink_after(stream) + emitted(progress_after(stream), chunk),
{
    let p = progress_after(stream);
    let q = absorb(p, chunk);
    let whole = stream + chunk;
    let r = progress_after(whole);
    if stream.len() >= PREFIX_LEN {
        crate::frame::lemma_bytes_of_value(stream.take(PREFIX_LEN as int));
        assert(whole.take(PREFIX_LEN as int) =~= stream.take(PREFIX_LEN as int));
        assert(chunk.take(0) =~= Seq::<u8>::empty());
        assert(q.header =~= r.header);
    } else if whole.len() < PREFIX_LEN {
        assert(chunk.take(chunk.len() as int) =~= chunk);
        assert(q.header =~= r.header);
    } else {
        let h = PREFIX_LEN - stream.len();
        assert(stream + chunk.take(h) =~= whole.take(PREFIX_LEN as int));
        assert(q.header =~= r.header);
        crate::frame::lemma_bytes_of_value(q.header);
    }
    assert(q.written == r.written);
    assert(sink_after(whole) =~= sink_after(stream) + emitted(p, chunk));
}

/// The pieces do not matter: however a stream is cut into chunks, a
/// receiver fed those chunks ends where the whole stream puts it, with the
/// same bytes in its sink.
pub proof fn lemma_run_matches_stream(chunks: Seq<Seq<u8>>)
    ensures
        run_progress(chunks) == progress_after(concat(chunks)),
        run_sink(chunks) == sink_after(concat(chunks)),
    decreases chunks.len(),
{
    if chunks.len() > 0 {
        lemma_run_matches_stream(chunks.drop_last());
        lemma_absorb_extends(concat(chunks.drop_last()), chunks.last());
    }
}

/// The prefix comes first: the first eight bytes of a wire image are the
/// little-endian length of the file, and the file follows unchanged.
pub proof fn lemma_prefix_first(file: Seq<u8>)
    requires
        file.len() <= u64::MAX,
    ensures
        wire_image(file).len() == PREFIX_LEN + file.len(),
        wire_image(file).take(PREFIX_LEN as int) == le_bytes(file.len() as u64),
        wire_image(file).skip(PREFIX_LEN as int) == file,
        le_value(wire_image(file).take(PREFIX_LEN as int)) == file.len(),
{
    lemma_value_of_bytes(file.len() as u64);
    assert(wire_image(file).take(PREFIX_LEN as int) =~= le_bytes(file.len() as u64));
    assert(wire_image(file).skip(PREFIX_LEN as int) =~= file);
}

/// A stream that starts with the wire image of `file` is received as
/// `file`, whatever follows the image.
pub proof fn lemma_image_received(file: Seq<u8>, extra: Seq<u8>)
    requires
        file.len() <= u64::MAX,
    ensures
        progress_after(wire_image(file) + extra).written == file.len(),
        sink_after(wire_image(file) + extra) == file,
        received(wire_image(file) + extra) == Ok::<Seq<u8>, TransferError>(file),
        outcome(progress_after(wire_image(file) + extra)) == Ok::<u64, TransferError>(
            file.len() as u64,
        ),
{
    let stream = wire_image(file) + extra;
    lemma_prefix_first(file);
    assert(stream.take(PREFIX_LEN as int) =~= wire_image(file).take(PREFIX_LEN as int));
    assert(sink_after(stream) =~= file);
}

/// The receiver stops at the announced length: whatever follows the wire
/// image of `file` on the stream, and however the stream is cut into
/// chunks, the sink holds `file` and nothing else, and the transfer counts
/// as complete.
pub proof fn lemma_stops_at_length(file: Seq<u8>, extra: Seq<u8>, chunks: Seq<Seq<u8>>)
    requires
        file.len() <= u64::MAX,
        concat(chunks) == wire_image(file) + extra,
    ensures
        run_sink(chunks) == file,
        run_progress(chunks).written == file.len(),
        outcome(run_progress(chunks)) == Ok::<u64, TransferError>(file.len() as u64),
        received(concat(chunks)) == Ok::<Seq<u8>, TransferError>(file),
{
    lemma_run_matches_stream(chunks);
    lemma_image_received(file, extra);
}

/// Round trip: however the wire image of `file` is cut into chunks, a
/// receiver fed those chunks writes exactly `file` to its sink and reports
/// a complete transfer of that length.
pub proof fn lemma_round_trip(file: Seq<u8>, chunks: Seq<Seq<u8>>)
    requires
        file.len() <= u64::MAX,
        concat(chunks) == wire_image(file),
    ensures
        run_sink(chunks) == file,
        outcome(run_progress(chunks)) == Ok::<u64, TransferError>(file.len() as u64),
        received(wire_image(file)) == Ok::<Seq<u8>, TransferError>(file),
{
    assert(wire_image(file) + Seq::<u8>::empty() =~= wire_image(file));
    lemma_stops_at_length(file, Seq::empty(), chunks);
}

/// Truncation is detected: when the stream ends after the prefix for
/// `size` but with fewer than `size` payload bytes, the receiver reports a
/// truncated transfer, and its sink holds the payload bytes that did
/// arrive.
pub proof fn lemma_truncation_detected(size: u64, partial: Seq<u8>, chunks: Seq<Seq<u8>>)
    requires
        partial.len() < size,
        concat(chunks) == le_bytes(size) + partial,
    ensures
        outcome(run_progress(chunks)) == Err::<u64, TransferError>(TransferError::Truncated),
        received(concat(chunks)) == Err::<Seq<u8>, TransferError>(TransferError::Truncated),
        run_sink(chunks) == partial,
{
    let stream = le_bytes(size) + partial;
    lemma_run_matches_stream(chunks);
    lemma_value_of_bytes(size);
    assert(stream.take(PREFIX_LEN as int) =~= le_bytes(size));
    assert(sink_after(stream) =~= partial);
}

/// A stream that ends inside the prefix is reported as such, and nothing
/// reaches the sink.
pub proof fn lemma_short_prefix_detected(chunks: Seq<Seq<u8>>)
    requires
        concat(chunks).len() < PREFIX_LEN,
    ensures
        outcome(run_progress(chunks)) == Err::<u64, TransferError>(TransferError::ShortPrefix),
        received(concat(chunks)) == Err::<Seq<u8>, TransferError>(TransferError::ShortPrefix),
        run_sink(chunks) == Seq::<u8>::empty(),
{
    lemma_run_matches_stream(chunks);
}

/// What a sender that announced `announced` bytes puts on the wire after
/// the prefix when its source delivers `source`: the start of `source`, up
/// to the announced length.
pub open spec fn transmitted(announced: nat, source: Seq<u8>) -> Seq<u8> {
    if source.len() <= announced {
        source
    } else {
        source.take(announced as int)
    }
}

/// What a sender has put on the wire after the prefix once it has been
/// handed `chunks` one by one.
pub open spec fn run_sent(announced: nat, chunks: Seq<Seq<u8>>) -> Seq<u8>
    decreases chunks.len(),
{
    if chunks.len() == 0 {
        Seq::empty()
    } else {
        let before = run_sent(announced, chunks.drop_last());
        before + chunks.last().take(
            send_share(Sending { announced, sent: before.len() }, chunks.last()),
        )
    }
}

/// The sender never exceeds what it announced: however its source is read
/// in chunks, and however long the source turns out to be, what it
/// transmits is the start of the source, cut at the announced length.
pub proof fn lemma_run_sent_matches_source(announced: nat, chunks: Seq<Seq<u8>>)
    ensures
        run_sent(announced, chunks) == transmitted(announced, concat(chunks)),
        run_sent(announced, chunks).len() <= announced,
    decreases chunks.len(),
{
    if chunks.len() > 0 {
        lemma_run_sent_matches_source(announced, chunks.drop_last());
        assert(run_sent(announced, chunks) =~= transmitted(announced, concat(chunks)));
    }
}

/// The length is fixed when the prefix is written: if the source holds at
/// least the `size` bytes that were announced, the receiver's sink ends up
/// with exactly the first `size` bytes of it, however much the source grew
/// afterwards.
pub proof fn lemma_length_fixed_at_open(size: u64, source: Seq<u8>)
    requires
        size <= source.len(),
    ensures
        received(le_bytes(size) + transmitted(size as nat, source)) == Ok::<
            Seq<u8>,
            TransferError,
        >(source.take(size as int)),
{
    let file = source.take(size as int);
    assert(transmitted(size as nat, source) =~= file);
    assert(wire_image(file) + Seq::<u8>::empty() =~= wire_image(file));
    lemma_image_received(file, Seq::empty());
}

/// Builds the complete wire image of `file` in memory: the size prefix,
/// then the payload.
pub fn send(file: &[u8]) -> (wire: Vec<u8>)
    ensures
        wire@ == wire_image(file@),
{
    let mut tx = Sender::new(file.len() as u64);
    let prefix = tx.prefix();
    let mut wire: Vec<u8> = Vec::new();
    wire.extend_from_slice(prefix.as_slice());
    let payload = tx.forward(file);
    wire.extend_from_slice(payload);
    assert(payload@ =~= file@);
    wire
}

/// The length of the next read: what the receiver wants, within `room`,
/// and no more than the `left` bytes the source still holds.
spec fn read_len(p: Progress, left: int, room: usize) -> int {
    let w = if wanted(p) <= room { wanted(p) } else { room as int };
    if w <= left { w } else { left }
}

fn next_read(rx: &Receiver, left: usize, room: usize) -> (n: usize)
    requires
        rx.wf(),
    ensures
        n == read_len(rx@, left as int, room),
{
    let w = rx.want(room);
    if w <= left { w } else { left }
}

/// Receives a whole stream held in memory, asking for at most `room` bytes
/// at a time (one at a time if `room` is zero), and returns the payload it
/// carries. Bytes after the announced length are left unread. A stream that
/// ends early is refused, with the part that was cut short.
pub fn receive(stream: &[u8], room: usize) -> (r: Result<Vec<u8>, TransferError>)
    ensures
        match r {
            Ok(payload) => received(stream@) == Ok::<Seq<u8>, TransferError>(payload@),
            Err(e) => received(stream@) == Err::<Seq<u8>, TransferError>(e),
        },
{
    let room: usize = if room == 0 { 1 } else { room };
    let mut rx = Receiver::new();
    let mut sink: Vec<u8> = Vec::new();
    let mut pos: usize = 0;
    let mut n: usize = next_read(&rx, stream.len(), room);
    assert(stream@.take(0) =~= Seq::<u8>::empty());
    while n > 0
        invariant
            rx.wf(),
            pos <= stream.len(),
            rx@ == progress_after(stream@.take(pos as int)),
            sink@ == sink_after(stream@.take(pos as int)),
            n == read_len(rx@, stream.len() - pos, room),
        decreases stream.len() - pos,
    {
        let out = rx.feed(slice_subrange(stream, pos, pos + n));
        sink.extend_from_slice(out);
        proof {
            lemma_absorb_extends(stream@.take(pos as int), stream@.subrange(pos as int, pos + n));
            assert(stream@.take(pos as int) + stream@.subrange(pos as int, pos + n)
                =~= stream@.take(pos + n));
        }
        pos = pos + n;
        n = next_read(&rx, stream.len() - pos, room);
    }
    proof {
        lemma_absorb_extends(stream@.take(pos as int), stream@.skip(pos as int));
        assert(stream@.take(pos as int) + stream@.skip(pos as int) =~= stream@);
        assert(stream@.skip(pos as int).take(0) =~= Seq::<u8>::empty());
        assert(stream@.take(stream@.len() as int) =~= stream@);
    }
    match rx.finish() {
        Ok(_) => Ok(sink),
        Err(e) => Err(e),
    }
}

} // verus!
