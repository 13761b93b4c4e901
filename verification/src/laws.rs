//! General properties of the boundary-detection model: what draining a buffer
//! yields for well-formed records, for their proper prefixes, for packed
//! records, for whole streams of records however they are chunked, and for
//! oversized or damaged headers.

use vstd::prelude::*;

use crate::deframer::{spec_drain, spec_read_ok, spec_verdict, MessageDeframer, Verdict};
use crate::message::{
    spec_header_valid, spec_message_of, spec_payload_len, spec_record_wf, MessageView,
    HEADER_SIZE, MAX_MESSAGE,
};

verus! {

/// A buffer holding exactly one well-formed record drains to exactly that
/// record, leaves nothing behind, and does not desynchronize.
pub proof fn lemma_record_drains_alone(b: Seq<u8>)
    requires
        spec_record_wf(b),
    ensures
        spec_drain(b).records == seq![spec_message_of(b)],
        spec_drain(b).rest == Seq::<u8>::empty(),
        !spec_drain(b).desync,
{
    reveal_with_fuel(spec_drain, 2);
    let used = HEADER_SIZE + spec_payload_len(b);
    assert(spec_verdict(b) is Complete);
    assert(b.take(used) =~= b);
    assert(b.skip(used) =~= Seq::<u8>::empty());
    assert(spec_verdict(b.skip(used)) is Incomplete);
    assert(spec_drain(b).records =~= seq![spec_message_of(b)]);
}

/// Any proper prefix of a well-formed record is still incomplete: draining it
/// queues nothing, buffers every byte of it, and does not desynchronize. This
/// is why feeding a record byte by byte shows no record until its last byte.
pub proof fn lemma_proper_prefix_incomplete(b: Seq<u8>, n: int)
    requires
        spec_record_wf(b),
        0 <= n < b.len(),
    ensures
        spec_verdict(b.take(n)) is Incomplete,
        spec_drain(b.take(n)).records == Seq::<MessageView>::empty(),
        spec_drain(b.take(n)).rest == b.take(n),
        !spec_drain(b.take(n)).desync,
{
    let p = b.take(n);
    if n >= HEADER_SIZE {
        assert(spec_header_valid(p));
        assert(spec_payload_len(p) == spec_payload_len(b));
        assert(p.len() < HEADER_SIZE + spec_payload_len(p));
    }
    assert(spec_verdict(p) is Incomplete);
}

/// Feeding the rest of a record after any split of it yields exactly the
/// record of the whole: buffering a prefix and then completing it is
/// equivalent to receiving the record in one piece.
pub proof fn lemma_incremental_equals_bulk(b: Seq<u8>, n: int)
    requires
        spec_record_wf(b),
        0 <= n < b.len(),
    ensures
        spec_drain(spec_drain(b.take(n)).rest + b.skip(n)).records == seq![spec_message_of(b)],
        spec_drain(spec_drain(b.take(n)).rest + b.skip(n)).rest == Seq::<u8>::empty(),
        !spec_drain(spec_drain(b.take(n)).rest + b.skip(n)).desync,
{
    lemma_proper_prefix_incomplete(b, n);
    assert(spec_drain(b.take(n)).rest + b.skip(n) =~= b);
    lemma_record_drains_alone(b);
}

/// A well-formed record at the front of a buffer is always taken first:
/// draining the whole buffer yields that record and then whatever draining
/// the remainder yields.
pub proof fn lemma_drain_record_prefix(b: Seq<u8>, rest: Seq<u8>)
    requires
        spec_record_wf(b),
    ensures
        spec_drain(b + rest).records == seq![spec_message_of(b)] + spec_drain(rest).records,
        spec_drain(b + rest).rest == spec_drain(rest).rest,
        spec_drain(b + rest).desync == spec_drain(rest).desync,
{
    let whole = b + rest;
    let used = HEADER_SIZE + spec_payload_len(whole);
    assert(spec_payload_len(whole) == spec_payload_len(b));
    assert(spec_verdict(whole) is Complete);
    assert(whole.take(used) =~= b);
    assert(whole.skip(used) =~= rest);
    assert(spec_drain(whole).records =~= seq![spec_message_of(b)] + spec_drain(rest).records);
}

/// Two well-formed records packed back to back drain to exactly those two
/// records in arrival order, with nothing left over and no desynchronization.
pub proof fn lemma_two_packed_records(a: Seq<u8>, b: Seq<u8>)
    requires
        spec_record_wf(a),
        spec_record_wf(b),
    ensures
        spec_drain(a + b).records == seq![spec_message_of(a), spec_message_of(b)],
        spec_drain(a + b).rest == Seq::<u8>::empty(),
        !spec_drain(a + b).desync,
{
    lemma_drain_record_prefix(a, b);
    lemma_record_drains_alone(b);
    assert(spec_drain(a + b).records =~= seq![spec_message_of(a), spec_message_of(b)]);
}

/// A header that declares a payload at or over the cap — or that is outright
/// damaged — poisons the stream: however many bytes arrive after it, draining
/// queues nothing and desynchronizes. The length is rejected from the header
/// alone, before any payload could be awaited.
pub proof fn lemma_oversized_header_rejected(b: Seq<u8>, more: Seq<u8>)
    requires
        b.len() >= HEADER_SIZE,
        !spec_header_valid(b) || spec_payload_len(b) >= MAX_MESSAGE - HEADER_SIZE,
    ensures
        spec_verdict(b + more) is Invalid,
        spec_drain(b + more).records == Seq::<MessageView>::empty(),
        spec_drain(b + more).rest == b + more,
        spec_drain(b + more).desync,
{
    let whole = b + more;
    assert(whole.len() >= HEADER_SIZE);
    if spec_header_valid(b) {
        assert(spec_payload_len(whole) == spec_payload_len(b));
    } else {
        assert(!spec_header_valid(whole));
    }
    assert(spec_verdict(whole) is Invalid);
}

/// An uninterpretable front is permanent: whatever arrives behind it, the
/// verdict stays invalid, draining queues nothing, every byte stays buffered,
/// and the desynchronization outcome stands.
pub proof fn lemma_invalid_verdict_sticks(b: Seq<u8>, more: Seq<u8>)
    requires
        spec_verdict(b) is Invalid,
    ensures
        spec_verdict(b + more) is Invalid,
        spec_drain(b + more).records == Seq::<MessageView>::empty(),
        spec_drain(b + more).rest == b + more,
        spec_drain(b + more).desync,
{
    assert(b.len() >= HEADER_SIZE);
    lemma_oversized_header_rejected(b, more);
}

/// Desynchronization is terminal: once the latch is set on a well-formed
/// deframer, any further ingest step — whatever bytes it receives — queues no
/// record, keeps the latch set, and only accumulates the bytes.
pub proof fn lemma_desync_is_terminal(
    pre: MessageDeframer,
    post: MessageDeframer,
    input: Seq<u8>,
)
    requires
        pre.wf(),
        pre.is_desynced(),
        spec_read_ok(pre, post, input),
    ensures
        post.records() == pre.records(),
        post.is_desynced(),
        post.buffered() == pre.buffered() + input,
{
    pre.lemma_wf_invariants();
    lemma_invalid_verdict_sticks(pre.buffered(), input);
    assert(pre.records() + spec_drain(pre.buffered() + input).records =~= pre.records());
}

/// Draining bytes in two instalments equals draining them at once: absorbing
/// `a` and then absorbing `b` behind what `a` left over yields, across the
/// two steps, the records of `a + b` in the same order, the same leftover and
/// the same desynchronization. However one byte stream is chunked into reads,
/// the records that come out are the same.
pub proof fn lemma_drain_composes(a: Seq<u8>, b: Seq<u8>)
    requires
        !spec_drain(a).desync,
    ensures
        spec_drain(a + b).records == spec_drain(a).records + spec_drain(
            spec_drain(a).rest + b,
        ).records,
        spec_drain(a + b).rest == spec_drain(spec_drain(a).rest + b).rest,
        spec_drain(a + b).desync == spec_drain(spec_drain(a).rest + b).desync,
    decreases a.len(),
{
    if spec_verdict(a) is Incomplete {
        assert(spec_drain(a).rest + b =~= a + b);
        assert(spec_drain(a).records + spec_drain(a + b).records =~= spec_drain(a + b).records);
    } else if spec_verdict(a) is Invalid {
        assert(spec_drain(a).desync);
    } else {
        let used = HEADER_SIZE + spec_payload_len(a);
        let tail = a.skip(used);
        assert(spec_payload_len(a + b) == spec_payload_len(a));
        assert(spec_verdict(a + b) is Complete);
        assert((a + b).take(used) =~= a.take(used));
        assert((a + b).skip(used) =~= tail + b);
        assert(!spec_drain(tail).desync);
        lemma_drain_composes(tail, b);
        assert(spec_drain(a).rest == spec_drain(tail).rest);
        assert(spec_drain(a + b).records =~= spec_drain(a).records + spec_drain(
            spec_drain(a).rest + b,
        ).records);
    }
}

/// Two successive ingest steps on a live deframer amount to one step fed the
/// concatenated bytes, as long as the stream has not desynchronized and the
/// single step would not outgrow the buffer: however the wire chunks its
/// delivery across calls, the deframer ends in the same state.
pub proof fn lemma_ingest_steps_compose(
    pre: MessageDeframer,
    mid: MessageDeframer,
    post: MessageDeframer,
    a: Seq<u8>,
    b: Seq<u8>,
)
    requires
        spec_read_ok(pre, mid, a),
        spec_read_ok(mid, post, b),
        !mid.is_desynced(),
        pre.buffered().len() + a.len() + b.len() <= MAX_MESSAGE,
    ensures
        spec_read_ok(pre, post, a + b),
{
    let first = pre.buffered() + a;
    assert(!spec_drain(first).desync);
    lemma_drain_composes(first, b);
    assert(pre.buffered() + (a + b) =~= first + b);
    assert(spec_drain(first).rest + b == mid.buffered() + b);
    assert(post.records() =~= pre.records() + spec_drain(pre.buffered() + (a + b)).records);
}

/// The bytes of a sequence of records laid back to back on the wire.
pub open spec fn spec_wire_bytes(recs: Seq<Seq<u8>>) -> Seq<u8>
    decreases recs.len(),
{
    if recs.len() == 0 {
        Seq::empty()
    } else {
        recs.first() + spec_wire_bytes(recs.drop_first())
    }
}

/// However much of a stream of well-formed records has arrived, draining it
/// yields exactly the records whose full spans are in, in wire order, with
/// the trailing fragment left buffered — and desynchronizes exactly if that
/// fragment is itself uninterpretable. This is the general shape of every
/// reassembly the deframer performs.
pub proof fn lemma_record_stream_drains_in_order(recs: Seq<Seq<u8>>, tail: Seq<u8>)
    requires
        forall|i: int| 0 <= i < recs.len() ==> spec_record_wf(#[trigger] recs[i]),
        !(spec_verdict(tail) is Complete),
    ensures
        spec_drain(spec_wire_bytes(recs) + tail).records == recs.map_values(
            |b: Seq<u8>| spec_message_of(b),
        ),
        spec_drain(spec_wire_bytes(recs) + tail).rest == tail,
        spec_drain(spec_wire_bytes(recs) + tail).desync == (spec_verdict(tail) is Invalid),
    decreases recs.len(),
{
    if recs.len() == 0 {
        assert(spec_wire_bytes(recs) + tail =~= tail);
        assert(recs.map_values(|b: Seq<u8>| spec_message_of(b)) =~= Seq::<
            MessageView,
        >::empty());
    } else {
        let first = recs.first();
        let others = recs.drop_first();
        let behind = spec_wire_bytes(others) + tail;
        assert(spec_record_wf(recs[0]));
        assert(spec_wire_bytes(recs) + tail =~= first + behind);
        lemma_drain_record_prefix(first, behind);
        assert forall|i: int| 0 <= i < others.len() implies spec_record_wf(
            #[trigger] others[i],
        ) by {
            assert(others[i] == recs[i + 1]);
        }
        lemma_record_stream_drains_in_order(others, tail);
        assert(recs.map_values(|b: Seq<u8>| spec_message_of(b)) =~= seq![
            spec_message_of(first),
        ] + others.map_values(|b: Seq<u8>| spec_message_of(b)));
    }
}

} // verus!
