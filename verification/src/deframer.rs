//! The deframer: absorbs arbitrarily chunked reads from a byte source,
//! detects record boundaries using only buffered headers, and queues the
//! completed records in wire arrival order.

use vstd::prelude::*;

use std::collections::VecDeque;

use crate::message::{
    content_type_from_byte, spec_content_type_valid, spec_header_valid, spec_message_of,
    spec_payload_len, Message, MessageView, HEADER_SIZE, MAX_MESSAGE,
};

verus! {

/// Bound on the completed-record queue. Once the queue holds this many
/// records, further reads are refused until the caller drains it.
pub const QUEUE_SIZE: usize = 1024;

/// The error a byte source reports when a read fails. The deframer never
/// produces one itself; it only propagates the source's.
#[derive(Clone, Copy, Debug, PartialEq, Eq, Structural)]
pub struct IoError;

/// A source of raw bytes, such as one network connection's stream. A read
/// hands back at most the requested number of bytes; fewer — including none —
/// means no more data is available right now, not an error.
pub trait ByteSource {
    /// Reads up to `max` bytes from the source.
    fn read(&mut self, max: usize) -> (r: Result<Vec<u8>, IoError>)
        ensures
            r matches Ok(v) ==> v@.len() <= max,
    ;
}

/// What the front of the accumulation buffer allows the deframer to decide:
/// not enough bytes yet for a verdict, a full well-formed record, or a header
/// that can never begin a valid record.
pub enum Verdict {
    /// Too few bytes for a header, or too few for the declared payload.
    Incomplete,
    /// A valid header and its whole declared payload are buffered.
    Complete,
    /// The header is damaged or declares a length at or over the cap.
    Invalid,
}

/// The verdict on a buffer, decided from the first `HEADER_SIZE` bytes alone:
/// the declared length is range-checked before any payload is awaited.
pub open spec fn spec_verdict(b: Seq<u8>) -> Verdict {
    if b.len() < HEADER_SIZE {
        Verdict::Incomplete
    } else if !spec_header_valid(b) {
        Verdict::Invalid
    } else if spec_payload_len(b) >= MAX_MESSAGE - HEADER_SIZE {
        Verdict::Invalid
    } else if b.len() >= HEADER_SIZE + spec_payload_len(b) {
        Verdict::Complete
    } else {
        Verdict::Incomplete
    }
}

/// What draining a buffer yields: the records extracted from its front, the
/// bytes left behind, and whether extraction stopped on corruption.
pub struct DrainOutcome {
    /// The records extracted, in the order their bytes arrived.
    pub records: Seq<MessageView>,
    /// The bytes left in the buffer after extraction stops.
    pub rest: Seq<u8>,
    /// Whether extraction stopped because the front can never be a record.
    pub desync: bool,
}

/// Extracts complete records from the front of a buffer until the verdict is
/// no longer `Complete`. This is the whole effect of one ingest call on the
/// bytes it has buffered.
pub open spec fn spec_drain(b: Seq<u8>) -> DrainOutcome
    decreases b.len(),
{
    match spec_verdict(b) {
        Verdict::Incomplete => DrainOutcome { records: Seq::empty(), rest: b, desync: false },
        Verdict::Invalid => DrainOutcome { records: Seq::empty(), rest: b, desync: true },
        Verdict::Complete => {
            let used = HEADER_SIZE + spec_payload_len(b);
            let tail = spec_drain(b.skip(used));
            DrainOutcome {
                records: seq![spec_message_of(b.take(used))] + tail.records,
                rest: tail.rest,
                desync: tail.desync,
            }
        },
    }
}

/// Two deframers that agree on everything a caller can observe: the queued
/// records, the buffered bytes, and the desynchronization latch.
pub open spec fn spec_same_state(a: MessageDeframer, b: MessageDeframer) -> bool {
    &&& a.records() == b.records()
    &&& a.buffered() == b.buffered()
    &&& a.is_desynced() == b.is_desynced()
}

/// The effect of one successful ingest step that received `input`: the new
/// bytes land behind whatever was buffered, every complete record at the
/// front is drained into the queue in order, and the latch is set exactly if
/// draining stopped on corruption.
pub open spec fn spec_read_ok(pre: MessageDeframer, post: MessageDeframer, input: Seq<u8>) -> bool {
    let outcome = spec_drain(pre.buffered() + input);
    &&& pre.buffered().len() + input.len() <= MAX_MESSAGE
    &&& post.records() == pre.records() + outcome.records
    &&& post.buffered() == outcome.rest
    &&& post.is_desynced() == (pre.is_desynced() || outcome.desync)
}

/// Reconstructs protocol records from an unstructured byte stream. One
/// instance serves one connection: bytes go in through `read`, completed
/// records come out of `frames` in wire arrival order, and `desynced` latches
/// once the stream stops being interpretable as the protocol.
pub struct MessageDeframer {
    /// Completed records, oldest first.
    pub frames: VecDeque<Message>,
    /// Latched once the peer is not talking this protocol. The deframer
    /// cannot recover; the caller should drain `frames` and abort the
    /// connection.
    pub desynced: bool,
    /// Bytes received but not yet assembled into a complete record.
    buf: Vec<u8>,
}

impl MessageDeframer {
    /// The bytes currently accumulated but not yet extracted as records.
    pub closed spec fn buffered(&self) -> Seq<u8> {
        self.buf@
    }

    /// Whether the desynchronization latch is set.
    pub closed spec fn is_desynced(&self) -> bool {
        self.desynced
    }

    /// The completed records queued for the caller, oldest first.
    pub closed spec fn records(&self) -> Seq<MessageView> {
        self.frames@.map_values(|m: Message| m@)
    }

    /// Well-formedness: the accumulation buffer never outgrows the largest
    /// permitted record; the latch is set exactly when the front of the
    /// buffer is uninterpretable, which appending can never mend, so no
    /// further extraction can happen; and no complete record is ever left
    /// sitting in the buffer — every read drains all of them before
    /// returning.
    pub closed spec fn wf(&self) -> bool {
        &&& self.buffered().len() <= MAX_MESSAGE
        &&& (self.is_desynced() <==> spec_verdict(self.buffered()) is Invalid)
        &&& !(spec_verdict(self.buffered()) is Complete)
    }

    /// A fresh deframer for a new connection: nothing buffered, nothing
    /// queued, in sync.
    pub fn new() -> (d: MessageDeframer)
        ensures
            d.wf(),
            d.records() == Seq::<MessageView>::empty(),
            d.buffered() == Seq::<u8>::empty(),
            !d.is_desynced(),
    {
        let d = MessageDeframer {
            frames: VecDeque::new(),
            desynced: false,
            buf: Vec::with_capacity(MAX_MESSAGE),
        };
        proof {
            assert(d.records() =~= Seq::<MessageView>::empty());
        }
        d
    }

    /// True while the caller still has something to process without new I/O:
    /// a queued record, or buffered bytes of a record in progress.
    pub fn has_pending(&self) -> (r: bool)
        ensures
            r == (self.records().len() > 0 || self.buffered().len() > 0),
    {
        self.frames.len() > 0 || self.buf.len() > 0
    }

    /// Removes and returns the oldest queued record; records always come out
    /// in wire arrival order.
    pub fn pop_record(&mut self) -> (r: Option<Message>)
        ensures
            final(self).buffered() == old(self).buffered(),
            final(self).is_desynced() == old(self).is_desynced(),
            old(self).wf() ==> final(self).wf(),
            (match r {
                Some(m) => {
                    &&& old(self).records().len() > 0
                    &&& m@ == old(self).records()[0]
                    &&& final(self).records() == old(self).records().skip(1)
                },
                None => {
                    &&& old(self).records().len() == 0
                    &&& final(self).records() == old(self).records()
                },
            }),
    {
        let r = self.frames.pop_front();
        proof {
            if old(self).frames@.len() > 0 {
                assert(self.records() =~= old(self).records().skip(1));
            } else {
                assert(self.records() =~= old(self).records());
            }
        }
        r
    }

    /// Reads some bytes from `rd` into the accumulation buffer, then drains
    /// every complete record already buffered into the queue. At most one
    /// read request is issued, sized so the buffer cannot outgrow the largest
    /// permitted record. A full queue refuses the call outright — it returns
    /// zero bytes read without touching the source; a failed read leaves the
    /// deframer exactly as it was; corruption is signalled through the latch,
    /// never as an error, so already-queued records stay poppable.
    pub fn read<S: ByteSource>(&mut self, rd: &mut S) -> (r: Result<usize, IoError>)
        requires
            old(self).wf(),
        ensures
            final(self).wf(),
            old(self).records().len() >= QUEUE_SIZE ==> ({
                &&& r == Ok::<usize, IoError>(0)
                &&& spec_same_state(*final(self), *old(self))
                &&& *final(rd) == *old(rd)
            }),
            r matches Err(_) ==> spec_same_state(*final(self), *old(self)),
            r matches Ok(n) ==> (old(self).records().len() < QUEUE_SIZE
                ==> exists|input: Seq<u8>|
                    #[trigger] spec_read_ok(*old(self), *final(self), input) && input.len()
                        == n),
    {
        if self.frames.len() >= QUEUE_SIZE {
            return Ok(0);
        }
        // One read request, sized to what the buffer can still hold. A
        // buffer already at the cap without a valid record degenerates to a
        // zero-length read; the oversize check has set or will set the latch.
        let room = MAX_MESSAGE - self.buf.len();
        let bytes = match rd.read(room) {
            Ok(b) => b,
            Err(e) => {
                return Err(e);
            },
        };
        let n = bytes.len();
        let ghost input = bytes@;
        self.feed(bytes);
        proof {
            assert(spec_read_ok(*old(self), *self, input));
        }
        Ok(n)
    }

    /// Appends bytes that arrived from the wire to the accumulation buffer,
    /// then drains every complete record at its front into the queue, in
    /// order. This is exactly what a successful read does with the bytes the
    /// source handed back; it is public so that a caller who already holds
    /// the bytes can reason about — and reach — the reassembly directly.
    pub fn feed(&mut self, bytes: Vec<u8>)
        requires
            old(self).wf(),
            old(self).buffered().len() + bytes@.len() <= MAX_MESSAGE,
        ensures
            final(self).wf(),
            spec_read_ok(*old(self), *final(self), bytes@),
    {
        let mut bytes = bytes;
        let ghost input = bytes@;
        let ghost start = self.buf@ + input;
        let ghost recs0 = self.records();
        let ghost d0 = self.desynced;
        self.buf.append(&mut bytes);
        proof {
            assert(self.records().skip(recs0.len() as int) =~= Seq::<MessageView>::empty());
            assert(spec_drain(start).records =~= self.records().skip(recs0.len() as int)
                + spec_drain(self.buffered()).records);
            if d0 {
                // The latch was already set, so the buffered header was
                // uninterpretable; appending at the back cannot mend it.
                let b0 = old(self).buffered();
                assert(start.len() >= HEADER_SIZE);
                assert(start[0] == b0[0] && start[1] == b0[1]);
                assert(start[3] == b0[3] && start[4] == b0[4]);
                assert(spec_verdict(start) is Invalid);
            }
        }
        loop
            invariant_except_break
                self.desynced == d0,
            invariant
                self.buffered().len() <= MAX_MESSAGE,
                self.desynced ==> spec_verdict(self.buffered()) is Invalid,
                self.records().len() >= recs0.len(),
                self.records().take(recs0.len() as int) == recs0,
                spec_drain(start).records == self.records().skip(recs0.len() as int)
                    + spec_drain(self.buffered()).records,
                spec_drain(start).rest == spec_drain(self.buffered()).rest,
                spec_drain(start).desync == spec_drain(self.buffered()).desync,
            ensures
                self.wf(),
                self.records() == recs0 + spec_drain(start).records,
                self.buffered() == spec_drain(start).rest,
                self.desynced == (d0 || spec_drain(start).desync),
            decreases self.buf@.len(),
        {
            match self.buf_contains_message() {
                None => {
                    self.desynced = true;
                    proof {
                        assert(spec_drain(self.buffered()).records
                            =~= Seq::<MessageView>::empty());
                        assert(self.records() =~= recs0 + spec_drain(start).records);
                    }
                    break;
                },
                Some(true) => {
                    let ghost pre = *self;
                    self.deframe_one();
                    proof {
                        let b = pre.buffered();
                        let used = HEADER_SIZE + spec_payload_len(b);
                        assert(spec_drain(b).records =~= seq![spec_message_of(b.take(used))]
                            + spec_drain(b.skip(used)).records);
                        assert(self.records().take(recs0.len() as int) =~= recs0);
                        assert(spec_drain(start).records =~= self.records().skip(
                            recs0.len() as int,
                        ) + spec_drain(self.buffered()).records);
                    }
                },
                Some(false) => {
                    proof {
                        assert(spec_drain(self.buffered()).records
                            =~= Seq::<MessageView>::empty());
                        assert(self.records() =~= recs0 + spec_drain(start).records);
                    }
                    break;
                },
            }
        }
    }

    /// What well-formedness guarantees every caller, exported so that client
    /// proofs can use it: the buffer never exceeds the largest permitted
    /// record, the latch is set exactly when the buffered front is
    /// uninterpretable, and no complete record is ever left unextracted.
    pub proof fn lemma_wf_invariants(&self)
        requires
            self.wf(),
        ensures
            self.buffered().len() <= MAX_MESSAGE,
            self.is_desynced() <==> spec_verdict(self.buffered()) is Invalid,
            !(spec_verdict(self.buffered()) is Complete),
    {
    }

    /// Does the buffer hold a full record? `Some(true)` if one is complete at
    /// the front, `Some(false)` if more bytes are needed for a decision, and
    /// `None` if the buffered header can never begin a valid record.
    fn buf_contains_message(&self) -> (r: Option<bool>)
        ensures
            r == (match spec_verdict(self.buffered()) {
                Verdict::Incomplete => Some(false),
                Verdict::Complete => Some(true),
                Verdict::Invalid => None::<bool>,
            }),
    {
        if self.buf.len() < HEADER_SIZE {
            return Some(false);
        }
        let len = match Message::check_header(self.buf.as_slice()) {
            Some(l) => l,
            None => {
                return None;
            },
        };
        if len >= MAX_MESSAGE - HEADER_SIZE {
            return None;
        }
        Some(self.buf.len() >= len + HEADER_SIZE)
    }

    /// Takes the complete record off the front of the buffer and queues it.
    /// Consumes exactly the header plus the declared payload length.
    fn deframe_one(&mut self)
        requires
            spec_verdict(old(self).buffered()) is Complete,
        ensures
            final(self).is_desynced() == old(self).is_desynced(),
            ({
                let used = HEADER_SIZE + spec_payload_len(old(self).buffered());
                &&& final(self).records() == old(self).records().push(
                    spec_message_of(old(self).buffered().take(used)),
                )
                &&& final(self).buffered() == old(self).buffered().skip(used)
            }),
    {
        proof {
            assert(spec_header_valid(old(self).buffered()));
            assert(spec_content_type_valid(old(self).buffered()[0]));
        }
        let len = Message::check_header(self.buf.as_slice()).unwrap();
        let used = HEADER_SIZE + len;
        let typ = content_type_from_byte(self.buf[0]).unwrap();
        let version = (self.buf[1] as u16) * 256 + (self.buf[2] as u16);
        let payload = vstd::slice::slice_to_vec(
            vstd::slice::slice_subrange(self.buf.as_slice(), HEADER_SIZE, used),
        );
        let m = Message { typ, version, payload };
        proof {
            let b = old(self).buffered();
            assert(m@.payload =~= b.take(used as int).skip(HEADER_SIZE as int));
            assert(m@ == spec_message_of(b.take(used as int)));
        }
        self.frames.push_back(m);
        let tail = self.buf.split_off(used);
        self.buf = tail;
        proof {
            let used = HEADER_SIZE + spec_payload_len(old(self).buffered());
            assert(self.buffered() =~= old(self).buffered().skip(used));
            assert(self.records() =~= old(self).records().push(
                spec_message_of(old(self).buffered().take(used)),
            ));
        }
    }
}

} // verus!
