//! Guarantees that span the sender, the wire and the receiver, proved
//! over the transcript a transfer puts on its stream.
//!
//! The transcript of a file is the offer, one chunk message per entry of
//! the chunk schedule, and the completion. The theorems here pin down the
//! chunking discipline of that transcript and the round trip: a receiver
//! that verifies and appends every chunk of the transcript reconstructs
//! the file byte for byte, and the offer's digest is the digest of what
//! it wrote.

use crate::chunking::{chunk_at, chunk_count, concat_chunks, lemma_chunk_count, lemma_chunk_lens,
    lemma_concat_chunks_all, spec_chunk_size};
use crate::hashing::blake3_hex;
use crate::protocol::{MessageView, MetadataView};
use vstd::prelude::*;

verus! {

/// The chunk message the sender emits for chunk `i` of file contents `f`
/// at chunk size `c`.
pub open spec fn chunk_message(f: Seq<u8>, tid: Seq<char>, c: int, i: int) -> MessageView {
    MessageView::ChunkData {
        transfer_id: tid,
        chunk_index: i as u32,
        data: chunk_at(f, c, i),
        chunk_hash: blake3_hex(chunk_at(f, c, i)),
    }
}

/// The offer that opens the transfer of `f`.
pub open spec fn offer_message(
    f: Seq<u8>,
    tid: Seq<char>,
    name: Seq<char>,
    sid: Seq<char>,
    sname: Seq<char>,
) -> MessageView {
    MessageView::FileOffer {
        transfer_id: tid,
        metadata: MetadataView {
            name: name,
            size: f.len() as u64,
            hash: blake3_hex(f),
            chunk_size: spec_chunk_size(f.len() as u64) as u32,
        },
        sender_id: sid,
        sender_name: sname,
    }
}

/// Everything a completed transfer of `f` puts on the stream, in order:
/// the offer, the chunk schedule, the completion.
pub open spec fn sender_transcript(
    f: Seq<u8>,
    tid: Seq<char>,
    name: Seq<char>,
    sid: Seq<char>,
    sname: Seq<char>,
) -> Seq<MessageView> {
    let c = spec_chunk_size(f.len() as u64);
    seq![offer_message(f, tid, name, sid, sname)] + Seq::new(
        chunk_count(f.len() as int, c) as nat,
        |i: int| chunk_message(f, tid, c, i),
    ) + seq![MessageView::TransferComplete { transfer_id: tid }]
}

/// Whether the receiver's integrity check passes a message: a chunk must
/// carry the digest of its own payload; other kinds carry no payload.
pub open spec fn chunk_verifies(m: MessageView) -> bool {
    m matches MessageView::ChunkData { data, chunk_hash, .. } ==> chunk_hash == blake3_hex(data)
}

/// The payload bytes a message contributes to the destination file.
pub open spec fn payload_of(m: MessageView) -> Seq<u8> {
    match m {
        MessageView::ChunkData { data, .. } => data,
        _ => Seq::empty(),
    }
}

/// The bytes a receiver writes when it processes `msgs` in order,
/// appending each chunk's payload.
pub open spec fn written_of(msgs: Seq<MessageView>) -> Seq<u8>
    decreases msgs.len(),
{
    if msgs.len() == 0 {
        Seq::empty()
    } else {
        written_of(msgs.drop_last()) + payload_of(msgs.last())
    }
}

/// The bytes written for a concatenation are the written bytes of the
/// parts, in order.
proof fn lemma_written_of_append(a: Seq<MessageView>, b: Seq<MessageView>)
    ensures
        written_of(a + b) == written_of(a) + written_of(b),
    decreases b.len(),
{
    if b.len() == 0 {
        assert(a + b =~= a);
        assert(written_of(a) + written_of(b) =~= written_of(a));
    } else {
        assert((a + b).drop_last() =~= a + b.drop_last());
        assert((a + b).last() == b.last());
        lemma_written_of_append(a, b.drop_last());
        assert(written_of(a + b) =~= written_of(a) + written_of(b));
    }
}

/// A run of messages that carry no payload writes nothing.
proof fn lemma_written_of_controls(s: Seq<MessageView>)
    requires
        forall|i: int| 0 <= i < s.len() ==> !((#[trigger] s[i]) is ChunkData),
    ensures
        written_of(s) == Seq::<u8>::empty(),
    decreases s.len(),
{
    if s.len() > 0 {
        lemma_written_of_controls(s.drop_last());
        assert(payload_of(s.last()) =~= Seq::<u8>::empty());
        assert(written_of(s) =~= Seq::<u8>::empty());
    }
}

/// The chunk messages for chunks `lo` to `hi` of `f`.
pub open spec fn chunk_run(f: Seq<u8>, tid: Seq<char>, c: int, lo: int, hi: int) -> Seq<
    MessageView,
>
    recommends
        0 <= lo <= hi,
{
    Seq::new((hi - lo) as nat, |i: int| chunk_message(f, tid, c, lo + i))
}

proof fn lemma_written_of_prefix(
    f: Seq<u8>,
    tid: Seq<char>,
    name: Seq<char>,
    sid: Seq<char>,
    sname: Seq<char>,
    k: int,
)
    requires
        0 <= k <= chunk_count(f.len() as int, spec_chunk_size(f.len() as u64)),
    ensures
        written_of(
            seq![offer_message(f, tid, name, sid, sname)] + Seq::new(
                k as nat,
                |i: int| chunk_message(f, tid, spec_chunk_size(f.len() as u64), i),
            ),
        ) == concat_chunks(f, spec_chunk_size(f.len() as u64), k),
    decreases k,
{
    let c = spec_chunk_size(f.len() as u64);
    let head = seq![offer_message(f, tid, name, sid, sname)];
    let s = head + Seq::new(k as nat, |i: int| chunk_message(f, tid, c, i));
    if k == 0 {
        assert(s =~= head);
        assert(head.len() == 1);
        assert(head.drop_last() =~= Seq::<MessageView>::empty());
        assert(written_of(Seq::<MessageView>::empty()) == Seq::<u8>::empty());
        assert(payload_of(head.last()) == Seq::<u8>::empty());
        assert(written_of(head) == written_of(head.drop_last()) + payload_of(head.last()));
        assert(written_of(head) =~= concat_chunks(f, c, 0));
    } else {
        let prev = head + Seq::new((k - 1) as nat, |i: int| chunk_message(f, tid, c, i));
        assert(s.drop_last() =~= prev);
        assert(s.last() == chunk_message(f, tid, c, k - 1));
        lemma_written_of_prefix(f, tid, name, sid, sname, k - 1);
        assert(written_of(s) == concat_chunks(f, c, k - 1) + chunk_at(f, c, k - 1));
    }
}

/// Chunking discipline and round-trip equivalence of a completed
/// transfer. The transcript of file `f` holds exactly
/// `ceil(len / chunk_size)` chunk messages, indexed in order from zero,
/// each full but the last, whose length is the remainder. Every chunk
/// passes the receiver's integrity check, and a receiver that appends
/// each verified payload in order reconstructs `f` exactly — and the
/// offer announced precisely the digest and the size of what the
/// receiver ends up holding.
pub proof fn lemma_transfer_round_trip(
    f: Seq<u8>,
    tid: Seq<char>,
    name: Seq<char>,
    sid: Seq<char>,
    sname: Seq<char>,
)
    requires
        f.len() <= u64::MAX,
        chunk_count(f.len() as int, spec_chunk_size(f.len() as u64)) <= u32::MAX,
    ensures
        ({
            let c = spec_chunk_size(f.len() as u64);
            let n = chunk_count(f.len() as int, c);
            let t = sender_transcript(f, tid, name, sid, sname);
            &&& t.len() == n + 2
            &&& t[0] == offer_message(f, tid, name, sid, sname)
            &&& offer_message(f, tid, name, sid, sname)->FileOffer_metadata.hash == blake3_hex(f)
            &&& offer_message(f, tid, name, sid, sname)->FileOffer_metadata.size == f.len()
            &&& t.last() == (MessageView::TransferComplete { transfer_id: tid })
            &&& forall|i: int|
                0 <= i < n ==> t[i + 1] == chunk_message(f, tid, c, i) && t[i
                    + 1]->ChunkData_chunk_index == i as u32
            &&& forall|i: int| 0 <= i < n - 1 ==> payload_of(#[trigger] t[i + 1]).len() == c
            &&& n > 0 ==> payload_of(t[n]).len() == f.len() - (n - 1) * c
            &&& forall|i: int| 0 <= i < t.len() ==> chunk_verifies(#[trigger] t[i])
            &&& written_of(t) == f
            &&& blake3_hex(written_of(t)) == blake3_hex(f)
        }),
{
    let c = spec_chunk_size(f.len() as u64);
    let n = chunk_count(f.len() as int, c);
    let t = sender_transcript(f, tid, name, sid, sname);
    lemma_chunk_count(f.len() as int, c);
    assert forall|i: int| 0 <= i < n - 1 implies payload_of(#[trigger] t[i + 1]).len() == c by {
        lemma_chunk_lens(f, c, i);
    }
    if n > 0 {
        lemma_chunk_lens(f, c, n - 1);
        assert(t[n] == chunk_message(f, tid, c, n - 1));
    }
    let chunks_part = seq![offer_message(f, tid, name, sid, sname)] + Seq::new(
        n as nat,
        |i: int| chunk_message(f, tid, c, i),
    );
    assert(t =~= chunks_part + seq![MessageView::TransferComplete { transfer_id: tid }]);
    assert(t.drop_last() =~= chunks_part);
    lemma_written_of_prefix(f, tid, name, sid, sname, n);
    lemma_concat_chunks_all(f, c);
    assert(written_of(t) == written_of(chunks_part) + payload_of(t.last()));
    assert(written_of(t) =~= f);
}

/// The transcript of a run cancelled after `k` chunks: nothing follows
/// the cancellation.
pub open spec fn cancelled_transcript(
    f: Seq<u8>,
    tid: Seq<char>,
    name: Seq<char>,
    sid: Seq<char>,
    sname: Seq<char>,
    k: int,
) -> Seq<MessageView> {
    let c = spec_chunk_size(f.len() as u64);
    seq![offer_message(f, tid, name, sid, sname)] + chunk_run(f, tid, c, 0, k) + seq![
        MessageView::TransferCancel { transfer_id: tid },
    ]
}

/// Cancellation finality. A run cancelled after `k` chunks puts exactly
/// `k` chunk messages on the stream — none after the cancellation, which
/// is the last message — and a receiver that processed it holds exactly
/// the first `k` chunks' bytes of the file, a prefix of `f`.
pub proof fn lemma_cancellation_truncates(
    f: Seq<u8>,
    tid: Seq<char>,
    name: Seq<char>,
    sid: Seq<char>,
    sname: Seq<char>,
    k: int,
)
    requires
        f.len() <= u64::MAX,
        0 <= k <= chunk_count(f.len() as int, spec_chunk_size(f.len() as u64)),
    ensures
        ({
            let c = spec_chunk_size(f.len() as u64);
            let t = cancelled_transcript(f, tid, name, sid, sname, k);
            &&& t.len() == k + 2
            &&& t.last() == (MessageView::TransferCancel { transfer_id: tid })
            &&& forall|i: int|
                0 <= i < t.len() ==> ((#[trigger] t[i]) is ChunkData <==> 1 <= i <= k)
            &&& written_of(t) == f.subrange(
                0,
                if k * c <= f.len() {
                    k * c
                } else {
                    f.len() as int
                },
            )
        }),
{
    let c = spec_chunk_size(f.len() as u64);
    let t = cancelled_transcript(f, tid, name, sid, sname, k);
    let head = seq![offer_message(f, tid, name, sid, sname)] + chunk_run(f, tid, c, 0, k);
    lemma_chunk_count(f.len() as int, c);
    assert(head =~= seq![offer_message(f, tid, name, sid, sname)] + Seq::new(
        k as nat,
        |i: int| chunk_message(f, tid, c, i),
    ));
    lemma_written_of_prefix(f, tid, name, sid, sname, k);
    crate::chunking::lemma_concat_chunks_prefix(f, c, k);
    lemma_written_of_append(head, seq![MessageView::TransferCancel { transfer_id: tid }]);
    assert(t =~= head + seq![MessageView::TransferCancel { transfer_id: tid }]);
    let tail = seq![MessageView::TransferCancel { transfer_id: tid }];
    lemma_written_of_controls(tail);
    assert(written_of(t) =~= written_of(head));
}

/// The transcript of a run paused after `k` chunks and later resumed:
/// the pause and resumption announcements stand between the chunks, and
/// the chunk schedule continues where it stopped.
pub open spec fn paused_transcript(
    f: Seq<u8>,
    tid: Seq<char>,
    name: Seq<char>,
    sid: Seq<char>,
    sname: Seq<char>,
    k: int,
) -> Seq<MessageView> {
    let c = spec_chunk_size(f.len() as u64);
    let n = chunk_count(f.len() as int, c);
    seq![offer_message(f, tid, name, sid, sname)] + chunk_run(f, tid, c, 0, k) + seq![
        MessageView::TransferPause { transfer_id: tid },
        MessageView::TransferResume { transfer_id: tid },
    ] + chunk_run(f, tid, c, k, n) + seq![MessageView::TransferComplete { transfer_id: tid }]
}

/// Pause suspends, resume continues. A run paused after `k` chunks and
/// resumed delivers the chunk schedule unchanged — the chunk after the
/// resumption is chunk `k`, exactly where the pause stopped — and the
/// receiver reconstructs the same file as from an uninterrupted run.
pub proof fn lemma_pause_resume_preserves_file(
    f: Seq<u8>,
    tid: Seq<char>,
    name: Seq<char>,
    sid: Seq<char>,
    sname: Seq<char>,
    k: int,
)
    requires
        f.len() <= u64::MAX,
        chunk_count(f.len() as int, spec_chunk_size(f.len() as u64)) <= u32::MAX,
        0 <= k <= chunk_count(f.len() as int, spec_chunk_size(f.len() as u64)),
    ensures
        ({
            let c = spec_chunk_size(f.len() as u64);
            let n = chunk_count(f.len() as int, c);
            let t = paused_transcript(f, tid, name, sid, sname, k);
            &&& t.len() == n + 4
            &&& t[k + 1] == (MessageView::TransferPause { transfer_id: tid })
            &&& t[k + 2] == (MessageView::TransferResume { transfer_id: tid })
            &&& (k < n ==> t[k + 3] == chunk_message(f, tid, c, k))
            &&& written_of(t) == f
        }),
{
    let c = spec_chunk_size(f.len() as u64);
    let n = chunk_count(f.len() as int, c);
    let t = paused_transcript(f, tid, name, sid, sname, k);
    lemma_chunk_count(f.len() as int, c);
    let head = seq![offer_message(f, tid, name, sid, sname)] + chunk_run(f, tid, c, 0, k);
    let controls = seq![
        MessageView::TransferPause { transfer_id: tid },
        MessageView::TransferResume { transfer_id: tid },
    ];
    let rest = chunk_run(f, tid, c, k, n);
    let close = seq![MessageView::TransferComplete { transfer_id: tid }];
    assert(t =~= head + controls + rest + close);
    lemma_written_of_append(head + controls + rest, close);
    lemma_written_of_append(head + controls, rest);
    lemma_written_of_append(head, controls);
    lemma_written_of_controls(controls);
    lemma_written_of_controls(close);
    // The uninterrupted transcript decomposes into the same chunk runs.
    let plain = sender_transcript(f, tid, name, sid, sname);
    assert(plain =~= head + rest + close);
    lemma_written_of_append(head + rest, close);
    lemma_written_of_append(head, rest);
    lemma_transfer_round_trip(f, tid, name, sid, sname);
    assert(written_of(t) =~= written_of(plain));
}

} // verus!
