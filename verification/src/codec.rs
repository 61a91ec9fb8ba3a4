//! The wire codec: the canonical binary encoding of the message union and
//! the length-prefixed framing around it.
//!
//! Every message on a per-transfer stream is
//! `u32 big-endian payload length || payload`, where the payload encodes
//! the tagged union in declaration order: one tag byte, then the fields.
//! Integers are big-endian; strings are length-prefixed UTF-8; byte
//! vectors are length-prefixed. The encoding is canonical: a byte string
//! is the encoding of at most one message, and the decoder accepts exactly
//! the encodings.

use crate::errors::CoreError;
use crate::protocol::{FileMetadata, MessageType, MessageView, MetadataView};
use vstd::prelude::*;
use vstd::string::StrSliceExecFns;
use vstd::utf8::{encode_utf8, decode_utf8, valid_utf8};

verus! {

/// `p` is an initial segment of `b`.
pub open spec fn is_prefix(p: Seq<u8>, b: Seq<u8>) -> bool {
    p.len() <= b.len() && b.subrange(0, p.len() as int) == p
}

/// Big-endian encoding of a `u32`.
pub open spec fn enc_u32(v: u32) -> Seq<u8> {
    seq![(v >> 24) as u8, (v >> 16) as u8, (v >> 8) as u8, v as u8]
}

/// Big-endian encoding of a `u64`.
pub open spec fn enc_u64(v: u64) -> Seq<u8> {
    seq![
        (v >> 56) as u8,
        (v >> 48) as u8,
        (v >> 40) as u8,
        (v >> 32) as u8,
        (v >> 24) as u8,
        (v >> 16) as u8,
        (v >> 8) as u8,
        v as u8,
    ]
}

/// A string is encodable when its UTF-8 form fits the `u32` length prefix.
pub open spec fn str_encodable(s: Seq<char>) -> bool {
    encode_utf8(s).len() <= u32::MAX
}

/// Length-prefixed UTF-8 encoding of a string.
pub open spec fn enc_str(s: Seq<char>) -> Seq<u8>
    recommends
        str_encodable(s),
{
    enc_u32(encode_utf8(s).len() as u32) + encode_utf8(s)
}

/// Length-prefixed raw bytes.
pub open spec fn enc_bytes(d: Seq<u8>) -> Seq<u8>
    recommends
        d.len() <= u32::MAX,
{
    enc_u32(d.len() as u32) + d
}

proof fn lemma_enc_u32_inj(a: u32, b: u32)
    requires
        enc_u32(a) == enc_u32(b),
    ensures
        a == b,
{
    assert((a >> 24) as u8 == (b >> 24) as u8 && (a >> 16) as u8 == (b >> 16) as u8 && (a >> 8)
        as u8 == (b >> 8) as u8 && a as u8 == b as u8 ==> a == b) by (bit_vector);
    assert(enc_u32(a)[0] == enc_u32(b)[0]);
    assert(enc_u32(a)[1] == enc_u32(b)[1]);
    assert(enc_u32(a)[2] == enc_u32(b)[2]);
    assert(enc_u32(a)[3] == enc_u32(b)[3]);
}

proof fn lemma_enc_u64_inj(a: u64, b: u64)
    requires
        enc_u64(a) == enc_u64(b),
    ensures
        a == b,
{
    assert((a >> 56) as u8 == (b >> 56) as u8 && (a >> 48) as u8 == (b >> 48) as u8 && (a >> 40)
        as u8 == (b >> 40) as u8 && (a >> 32) as u8 == (b >> 32) as u8 && (a >> 24) as u8 == (b
        >> 24) as u8 && (a >> 16) as u8 == (b >> 16) as u8 && (a >> 8) as u8 == (b >> 8) as u8 && a
        as u8 == b as u8 ==> a == b) by (bit_vector);
    assert(forall|i: int| 0 <= i < 8 ==> enc_u64(a)[i] == enc_u64(b)[i]);
}

/// Appends the bytes of `data` to `out`.
fn push_bytes(out: &mut Vec<u8>, data: &[u8])
    ensures
        final(out)@ == old(out)@ + data@,
{
    let ghost start = out@;
    let n = data.len();
    let mut i: usize = 0;
    while i < n
        invariant
            n == data@.len(),
            0 <= i <= n,
            out@ == start + data@.subrange(0, i as int),
        decreases n - i,
    {
        out.push(data[i]);
        proof {
            assert(out@ =~= start + data@.subrange(0, i + 1));
        }
        i += 1;
    }
    proof {
        assert(out@ =~= start + data@);
    }
}

/// Appends the big-endian bytes of `v` to `out`.
fn write_u32(out: &mut Vec<u8>, v: u32)
    ensures
        final(out)@ == old(out)@ + enc_u32(v),
{
    out.push(#[verifier::truncate] ((v >> 24) as u8));
    out.push(#[verifier::truncate] ((v >> 16) as u8));
    out.push(#[verifier::truncate] ((v >> 8) as u8));
    out.push(#[verifier::truncate] (v as u8));
    proof {
        assert(out@ =~= old(out)@ + enc_u32(v));
    }
}

/// Appends the big-endian bytes of `v` to `out`.
fn write_u64(out: &mut Vec<u8>, v: u64)
    ensures
        final(out)@ == old(out)@ + enc_u64(v),
{
    out.push(#[verifier::truncate] ((v >> 56) as u8));
    out.push(#[verifier::truncate] ((v >> 48) as u8));
    out.push(#[verifier::truncate] ((v >> 40) as u8));
    out.push(#[verifier::truncate] ((v >> 32) as u8));
    out.push(#[verifier::truncate] ((v >> 24) as u8));
    out.push(#[verifier::truncate] ((v >> 16) as u8));
    out.push(#[verifier::truncate] ((v >> 8) as u8));
    out.push(#[verifier::truncate] (v as u8));
    proof {
        assert(out@ =~= old(out)@ + enc_u64(v));
    }
}

/// Appends the length-prefixed UTF-8 form of `s` to `out`, or reports
/// that the string is too long for the prefix.
fn write_str(out: &mut Vec<u8>, s: &String) -> (ok: bool)
    ensures
        ok == str_encodable(s@),
        ok ==> final(out)@ == old(out)@ + enc_str(s@),
        !ok ==> final(out)@ == old(out)@,
{
    let bytes = s.as_str().as_bytes_vec();
    if bytes.len() as u64 > u32::MAX as u64 {
        return false;
    }
    write_u32(out, bytes.len() as u32);
    push_bytes(out, bytes.as_slice());
    proof {
        assert(out@ =~= old(out)@ + enc_str(s@));
    }
    true
}

/// Appends the length-prefixed bytes of `d` to `out`, or reports that the
/// vector is too long for the prefix.
fn write_bytes(out: &mut Vec<u8>, d: &Vec<u8>) -> (ok: bool)
    ensures
        ok == (d@.len() <= u32::MAX),
        ok ==> final(out)@ == old(out)@ + enc_bytes(d@),
        !ok ==> final(out)@ == old(out)@,
{
    if d.len() as u64 > u32::MAX as u64 {
        return false;
    }
    write_u32(out, d.len() as u32);
    push_bytes(out, d.as_slice());
    proof {
        assert(out@ =~= old(out)@ + enc_bytes(d@));
    }
    true
}

/// Relies on `String::from_utf8`: it succeeds exactly on valid UTF-8 and
/// returns the string those bytes spell.
#[verifier::external_body]
fn bytes_to_string(v: Vec<u8>) -> (r: Option<String>)
    ensures
        r is Some <==> valid_utf8(v@),
        r matches Some(s) ==> s@ == decode_utf8(v@),
{
    match String::from_utf8(v) {
        Ok(s) => Some(s),
        Err(_) => None,
    }
}

/// Reads a big-endian `u32` at `pos`. Fails only where fewer than four
/// bytes remain.
fn read_u32(b: &Vec<u8>, pos: usize) -> (r: Option<(u32, usize)>)
    requires
        pos <= b@.len(),
    ensures
        match r {
            Some(vp) => pos + 4 == vp.1 && vp.1 <= b@.len() && enc_u32(vp.0) == b@.subrange(
                pos as int,
                pos + 4,
            ),
            None => b@.len() < pos + 4,
        },
{
    if b.len() - pos < 4 {
        return None;
    }
    let b0 = b[pos];
    let b1 = b[pos + 1];
    let b2 = b[pos + 2];
    let b3 = b[pos + 3];
    let v = ((b0 as u32) << 24) | ((b1 as u32) << 16) | ((b2 as u32) << 8) | (b3 as u32);
    proof {
        let vv = v;
        assert((vv >> 24) as u8 == b0 && (vv >> 16) as u8 == b1 && (vv >> 8) as u8 == b2 && vv
            as u8 == b3) by (bit_vector)
            requires
                vv == ((b0 as u32) << 24) | ((b1 as u32) << 16) | ((b2 as u32) << 8) | (b3 as u32),
        ;
        assert(enc_u32(v) =~= b@.subrange(pos as int, pos + 4));
    }
    Some((v, pos + 4))
}

/// Reads a big-endian `u64` at `pos`. Fails only where fewer than eight
/// bytes remain.
fn read_u64(b: &Vec<u8>, pos: usize) -> (r: Option<(u64, usize)>)
    requires
        pos <= b@.len(),
    ensures
        match r {
            Some(vp) => pos + 8 == vp.1 && vp.1 <= b@.len() && enc_u64(vp.0) == b@.subrange(
                pos as int,
                pos + 8,
            ),
            None => b@.len() < pos + 8,
        },
{
    if b.len() - pos < 8 {
        return None;
    }
    let b0 = b[pos];
    let b1 = b[pos + 1];
    let b2 = b[pos + 2];
    let b3 = b[pos + 3];
    let b4 = b[pos + 4];
    let b5 = b[pos + 5];
    let b6 = b[pos + 6];
    let b7 = b[pos + 7];
    let v = ((b0 as u64) << 56) | ((b1 as u64) << 48) | ((b2 as u64) << 40) | ((b3 as u64) << 32)
        | ((b4 as u64) << 24) | ((b5 as u64) << 16) | ((b6 as u64) << 8) | (b7 as u64);
    proof {
        let vv = v;
        assert((vv >> 56) as u8 == b0 && (vv >> 48) as u8 == b1 && (vv >> 40) as u8 == b2 && (vv
            >> 32) as u8 == b3 && (vv >> 24) as u8 == b4 && (vv >> 16) as u8 == b5 && (vv >> 8)
            as u8 == b6 && vv as u8 == b7) by (bit_vector)
            requires
                vv == ((b0 as u64) << 56) | ((b1 as u64) << 48) | ((b2 as u64) << 40) | ((b3
                    as u64) << 32) | ((b4 as u64) << 24) | ((b5 as u64) << 16) | ((b6 as u64) << 8)
                    | (b7 as u64),
        ;
        assert(enc_u64(v) =~= b@.subrange(pos as int, pos + 8));
    }
    Some((v, pos + 8))
}

proof fn lemma_skip_subrange(b: Seq<u8>, pos: int, k: int)
    requires
        0 <= pos <= b.len(),
        0 <= k,
        pos + k <= b.len(),
    ensures
        b.skip(pos).subrange(0, k) == b.subrange(pos, pos + k),
{
    assert(b.skip(pos).subrange(0, k) =~= b.subrange(pos, pos + k));
}

/// Reads a length-prefixed UTF-8 string at `pos`. Fails exactly where no
/// encodable string's encoding starts there.
fn read_string(b: &Vec<u8>, pos: usize) -> (r: Option<(String, usize)>)
    requires
        pos <= b@.len(),
    ensures
        match r {
            Some(sp) => {
                &&& str_encodable(sp.0@)
                &&& sp.1 == pos + enc_str(sp.0@).len()
                &&& sp.1 <= b@.len()
                &&& b@.subrange(pos as int, sp.1 as int) == enc_str(sp.0@)
            },
            None => forall|s: Seq<char>|
                str_encodable(s) ==> !is_prefix(#[trigger] enc_str(s), b@.skip(pos as int)),
        },
{
    let ghost tail = b@.skip(pos as int);
    match read_u32(b, pos) {
        None => {
            proof {
                assert forall|s: Seq<char>| str_encodable(s) implies !is_prefix(
                    #[trigger] enc_str(s),
                    tail,
                ) by {
                    assert(enc_str(s).len() >= 4);
                    assert(tail.len() < 4);
                }
            }
            None
        },
        Some((n, p1)) => {
            if b.len() - p1 < n as usize {
                proof {
                    assert forall|s: Seq<char>| str_encodable(s) implies !is_prefix(
                        #[trigger] enc_str(s),
                        tail,
                    ) by {
                        if is_prefix(enc_str(s), tail) {
                            let ns = encode_utf8(s).len() as u32;
                            lemma_skip_subrange(b@, pos as int, 4);
                            assert(enc_str(s).subrange(0, 4) =~= enc_u32(ns));
                            assert(tail.subrange(0, 4) =~= enc_str(s).subrange(0, 4));
                            lemma_enc_u32_inj(ns, n);
                            assert(enc_str(s).len() == 4 + n);
                            assert(tail.len() < 4 + n);
                        }
                    }
                }
                return None;
            }
            let seg_slice = vstd::slice::slice_subrange(b.as_slice(), p1, p1 + n as usize);
            let seg = vstd::slice::slice_to_vec(seg_slice);
            let ghost seg_view = b@.subrange(p1 as int, p1 + n as usize);
            match bytes_to_string(seg) {
                None => {
                    proof {
                        assert forall|s: Seq<char>| str_encodable(s) implies !is_prefix(
                            #[trigger] enc_str(s),
                            tail,
                        ) by {
                            if is_prefix(enc_str(s), tail) {
                                let ns = encode_utf8(s).len() as u32;
                                lemma_skip_subrange(b@, pos as int, 4);
                                assert(enc_str(s).subrange(0, 4) =~= enc_u32(ns));
                                assert(tail.subrange(0, 4) =~= enc_str(s).subrange(0, 4));
                                lemma_enc_u32_inj(ns, n);
                                lemma_skip_subrange(b@, pos as int, 4 + n as int);
                                assert(enc_str(s) =~= tail.subrange(0, 4 + n as int));
                                assert(seg_view =~= enc_str(s).subrange(4, 4 + n as int));
                                assert(seg_view =~= encode_utf8(s));
                                vstd::utf8::encode_utf8_valid_utf8(s);
                            }
                        }
                    }
                    None
                },
                Some(st) => {
                    proof {
                        vstd::utf8::decode_utf8_encode_utf8(seg_view);
                        assert(encode_utf8(st@) == seg_view);
                        assert(b@.subrange(pos as int, p1 + n as usize) =~= enc_u32(n)
                            + seg_view);
                        assert(enc_str(st@) == enc_u32(n) + seg_view);
                    }
                    Some((st, p1 + n as usize))
                },
            }
        },
    }
}

/// Reads a length-prefixed byte vector at `pos`. Fails exactly where no
/// byte vector's encoding starts there.
fn read_bytes(b: &Vec<u8>, pos: usize) -> (r: Option<(Vec<u8>, usize)>)
    requires
        pos <= b@.len(),
    ensures
        match r {
            Some(vp) => {
                &&& vp.0@.len() <= u32::MAX
                &&& vp.1 == pos + enc_bytes(vp.0@).len()
                &&& vp.1 <= b@.len()
                &&& b@.subrange(pos as int, vp.1 as int) == enc_bytes(vp.0@)
            },
            None => forall|d: Seq<u8>|
                d.len() <= u32::MAX ==> !is_prefix(#[trigger] enc_bytes(d), b@.skip(pos as int)),
        },
{
    let ghost tail = b@.skip(pos as int);
    match read_u32(b, pos) {
        None => {
            proof {
                assert forall|d: Seq<u8>| d.len() <= u32::MAX implies !is_prefix(
                    #[trigger] enc_bytes(d),
                    tail,
                ) by {
                    assert(enc_bytes(d).len() >= 4);
                    assert(tail.len() < 4);
                }
            }
            None
        },
        Some((n, p1)) => {
            if b.len() - p1 < n as usize {
                proof {
                    assert forall|d: Seq<u8>| d.len() <= u32::MAX implies !is_prefix(
                        #[trigger] enc_bytes(d),
                        tail,
                    ) by {
                        if is_prefix(enc_bytes(d), tail) {
                            let nd = d.len() as u32;
                            lemma_skip_subrange(b@, pos as int, 4);
                            assert(enc_bytes(d).subrange(0, 4) =~= enc_u32(nd));
                            assert(tail.subrange(0, 4) =~= enc_bytes(d).subrange(0, 4));
                            lemma_enc_u32_inj(nd, n);
                            assert(enc_bytes(d).len() == 4 + n);
                            assert(tail.len() < 4 + n);
                        }
                    }
                }
                return None;
            }
            let seg_slice = vstd::slice::slice_subrange(b.as_slice(), p1, p1 + n as usize);
            let seg = vstd::slice::slice_to_vec(seg_slice);
            proof {
                assert(b@.subrange(pos as int, p1 + n as usize) =~= enc_u32(n) + seg@);
                assert(enc_bytes(seg@) == enc_u32(n) + seg@);
            }
            Some((seg, p1 + n as usize))
        },
    }
}

/// The tag byte that opens each message kind's encoding.
pub open spec fn msg_tag(m: MessageView) -> u8 {
    match m {
        MessageView::FileOffer { .. } => 1,
        MessageView::ChunkData { .. } => 2,
        MessageView::TransferPause { .. } => 3,
        MessageView::TransferResume { .. } => 4,
        MessageView::TransferCancel { .. } => 5,
        MessageView::TransferComplete { .. } => 6,
        MessageView::TransferCompleteAck { .. } => 7,
        MessageView::TransferError { .. } => 8,
        MessageView::PairRequest { .. } => 9,
    }
}

/// Encoding of the metadata block inside a file offer, in field order.
pub open spec fn enc_meta(md: MetadataView) -> Seq<u8> {
    enc_str(md.name) + enc_u64(md.size) + enc_str(md.hash) + enc_u32(md.chunk_size)
}

/// The field bytes of a message, after its tag.
pub open spec fn enc_fields(m: MessageView) -> Seq<u8> {
    match m {
        MessageView::FileOffer { transfer_id, metadata, sender_id, sender_name } => enc_str(
            transfer_id,
        ) + enc_meta(metadata) + enc_str(sender_id) + enc_str(sender_name),
        MessageView::ChunkData { transfer_id, chunk_index, data, chunk_hash } => enc_str(
            transfer_id,
        ) + enc_u32(chunk_index) + enc_bytes(data) + enc_str(chunk_hash),
        MessageView::TransferPause { transfer_id } => enc_str(transfer_id),
        MessageView::TransferResume { transfer_id } => enc_str(transfer_id),
        MessageView::TransferCancel { transfer_id } => enc_str(transfer_id),
        MessageView::TransferComplete { transfer_id } => enc_str(transfer_id),
        MessageView::TransferCompleteAck { transfer_id } => enc_str(transfer_id),
        MessageView::TransferError { transfer_id, message } => enc_str(transfer_id) + enc_str(
            message,
        ),
        MessageView::PairRequest { device_id, device_name, pairing_code } => enc_str(device_id)
            + enc_str(device_name) + enc_str(pairing_code),
    }
}

/// The canonical payload encoding of a message: tag byte, then fields.
pub open spec fn enc_message(m: MessageView) -> Seq<u8> {
    seq![msg_tag(m)] + enc_fields(m)
}

/// Whether every length-prefixed field of `m` fits its `u32` prefix.
pub open spec fn msg_encodable(m: MessageView) -> bool {
    match m {
        MessageView::FileOffer { transfer_id, metadata, sender_id, sender_name } => str_encodable(
            transfer_id,
        ) && str_encodable(metadata.name) && str_encodable(metadata.hash) && str_encodable(
            sender_id,
        ) && str_encodable(sender_name),
        MessageView::ChunkData { transfer_id, chunk_index, data, chunk_hash } => str_encodable(
            transfer_id,
        ) && data.len() <= u32::MAX && str_encodable(chunk_hash),
        MessageView::TransferPause { transfer_id } => str_encodable(transfer_id),
        MessageView::TransferResume { transfer_id } => str_encodable(transfer_id),
        MessageView::TransferCancel { transfer_id } => str_encodable(transfer_id),
        MessageView::TransferComplete { transfer_id } => str_encodable(transfer_id),
        MessageView::TransferCompleteAck { transfer_id } => str_encodable(transfer_id),
        MessageView::TransferError { transfer_id, message } => str_encodable(transfer_id)
            && str_encodable(message),
        MessageView::PairRequest { device_id, device_name, pairing_code } => str_encodable(
            device_id,
        ) && str_encodable(device_name) && str_encodable(pairing_code),
    }
}

proof fn lemma_skip_skip(b: Seq<u8>, i: int, j: int)
    requires
        0 <= i,
        0 <= j,
        i + j <= b.len(),
    ensures
        b.skip(i).skip(j) == b.skip(i + j),
{
    assert(b.skip(i).skip(j) =~= b.skip(i + j));
}

proof fn lemma_parsed_prefix(b: Seq<u8>, pos: int, p: int, encx: Seq<u8>)
    requires
        0 <= pos <= p <= b.len(),
        b.subrange(pos, p) == encx,
    ensures
        is_prefix(encx, b.skip(pos)),
{
    assert(b.skip(pos).subrange(0, p - pos) =~= b.subrange(pos, p));
}

proof fn lemma_chop_u32(big: Seq<u8>, v: u32, rest: Seq<u8>, t: u32)
    requires
        big == enc_u32(v) + rest,
        is_prefix(enc_u32(t), big),
    ensures
        v == t,
        rest == big.skip(4),
{
    assert(big.subrange(0, 4) =~= enc_u32(v));
    lemma_enc_u32_inj(v, t);
    assert(rest =~= big.skip(4));
}

proof fn lemma_chop_u64(big: Seq<u8>, v: u64, rest: Seq<u8>, t: u64)
    requires
        big == enc_u64(v) + rest,
        is_prefix(enc_u64(t), big),
    ensures
        v == t,
        rest == big.skip(8),
{
    assert(big.subrange(0, 8) =~= enc_u64(v));
    lemma_enc_u64_inj(v, t);
    assert(rest =~= big.skip(8));
}

proof fn lemma_chop_str(big: Seq<u8>, s: Seq<char>, rest: Seq<u8>, t: Seq<char>)
    requires
        str_encodable(s),
        str_encodable(t),
        big == enc_str(s) + rest,
        is_prefix(enc_str(t), big),
    ensures
        s == t,
        rest == big.skip(enc_str(t).len() as int),
{
    let ns = encode_utf8(s).len() as u32;
    let nt = encode_utf8(t).len() as u32;
    let lt = enc_str(t).len() as int;
    assert(big.subrange(0, lt) == enc_str(t));
    assert(big.subrange(0, 4) =~= enc_u32(ns));
    assert(enc_u32(nt) =~= big.subrange(0, 4));
    lemma_enc_u32_inj(ns, nt);
    assert(enc_str(s).len() == lt);
    assert(enc_str(s) =~= big.subrange(0, lt));
    assert(encode_utf8(s) =~= enc_str(s).skip(4));
    assert(encode_utf8(t) =~= enc_str(t).skip(4));
    assert(encode_utf8(s) == encode_utf8(t));
    vstd::utf8::encode_utf8_decode_utf8(s);
    vstd::utf8::encode_utf8_decode_utf8(t);
    assert(rest =~= big.skip(lt));
}

proof fn lemma_chop_bytes(big: Seq<u8>, d: Seq<u8>, rest: Seq<u8>, e: Seq<u8>)
    requires
        d.len() <= u32::MAX,
        e.len() <= u32::MAX,
        big == enc_bytes(d) + rest,
        is_prefix(enc_bytes(e), big),
    ensures
        d == e,
        rest == big.skip(enc_bytes(e).len() as int),
{
    let nd = d.len() as u32;
    let ne = e.len() as u32;
    let le = enc_bytes(e).len() as int;
    assert(big.subrange(0, le) == enc_bytes(e));
    assert(big.subrange(0, 4) =~= enc_u32(nd));
    assert(enc_u32(ne) =~= big.subrange(0, 4));
    lemma_enc_u32_inj(nd, ne);
    assert(enc_bytes(d).len() == le);
    assert(enc_bytes(d) =~= big.subrange(0, le));
    assert(d =~= enc_bytes(d).skip(4));
    assert(e =~= enc_bytes(e).skip(4));
    assert(rest =~= big.skip(le));
}

proof fn lemma_message_head(m: MessageView)
    ensures
        enc_message(m).len() >= 1,
        enc_message(m)[0] == msg_tag(m),
        enc_message(m).skip(1) == enc_fields(m),
{
    assert(enc_message(m).skip(1) =~= enc_fields(m));
}

proof fn lemma_concat_prefix(a: Seq<u8>, b: Seq<u8>)
    ensures
        is_prefix(a, a + b),
{
    assert((a + b).subrange(0, a.len() as int) =~= a);
}

proof fn lemma_step_str(big: Seq<u8>, s1: Seq<char>, r1: Seq<u8>, s2: Seq<char>, r2: Seq<u8>)
    requires
        str_encodable(s1),
        str_encodable(s2),
        big == enc_str(s1) + r1,
        big == enc_str(s2) + r2,
    ensures
        s1 == s2,
        r1 == r2,
{
    lemma_concat_prefix(enc_str(s2), r2);
    lemma_chop_str(big, s1, r1, s2);
    assert(r2 =~= big.skip(enc_str(s2).len() as int));
}

proof fn lemma_step_u32(big: Seq<u8>, v1: u32, r1: Seq<u8>, v2: u32, r2: Seq<u8>)
    requires
        big == enc_u32(v1) + r1,
        big == enc_u32(v2) + r2,
    ensures
        v1 == v2,
        r1 == r2,
{
    lemma_concat_prefix(enc_u32(v2), r2);
    lemma_chop_u32(big, v1, r1, v2);
    assert(r2 =~= big.skip(4));
}

proof fn lemma_step_u64(big: Seq<u8>, v1: u64, r1: Seq<u8>, v2: u64, r2: Seq<u8>)
    requires
        big == enc_u64(v1) + r1,
        big == enc_u64(v2) + r2,
    ensures
        v1 == v2,
        r1 == r2,
{
    lemma_concat_prefix(enc_u64(v2), r2);
    lemma_chop_u64(big, v1, r1, v2);
    assert(r2 =~= big.skip(8));
}

proof fn lemma_step_bytes(big: Seq<u8>, d1: Seq<u8>, r1: Seq<u8>, d2: Seq<u8>, r2: Seq<u8>)
    requires
        d1.len() <= u32::MAX,
        d2.len() <= u32::MAX,
        big == enc_bytes(d1) + r1,
        big == enc_bytes(d2) + r2,
    ensures
        d1 == d2,
        r1 == r2,
{
    lemma_concat_prefix(enc_bytes(d2), r2);
    lemma_chop_bytes(big, d1, r1, d2);
    assert(r2 =~= big.skip(enc_bytes(d2).len() as int));
}

proof fn lemma_last_str(big: Seq<u8>, s1: Seq<char>, s2: Seq<char>)
    requires
        str_encodable(s1),
        str_encodable(s2),
        big == enc_str(s1),
        big == enc_str(s2),
    ensures
        s1 == s2,
{
    assert(big =~= enc_str(s1) + Seq::<u8>::empty());
    assert(big =~= enc_str(s2) + Seq::<u8>::empty());
    lemma_step_str(big, s1, Seq::<u8>::empty(), s2, Seq::<u8>::empty());
}

/// The encoding is canonical: equal payloads spell equal messages.
#[verifier::rlimit(100)]
#[verifier::spinoff_prover]
pub proof fn lemma_enc_message_injective(m1: MessageView, m2: MessageView)
    requires
        msg_encodable(m1),
        msg_encodable(m2),
        enc_message(m1) == enc_message(m2),
    ensures
        m1 == m2,
{
    lemma_message_head(m1);
    lemma_message_head(m2);
    assert(msg_tag(m1) == msg_tag(m2));
    let f = enc_fields(m1);
    assert(enc_fields(m2) == f);
    match m1 {
        MessageView::FileOffer { transfer_id, metadata, sender_id, sender_name } => {
            let t2 = m2->FileOffer_transfer_id;
            let md2 = m2->FileOffer_metadata;
            let si2 = m2->FileOffer_sender_id;
            let sn2 = m2->FileOffer_sender_name;
            let r1a = enc_str(metadata.name) + enc_u64(metadata.size) + enc_str(metadata.hash)
                + enc_u32(metadata.chunk_size) + enc_str(sender_id) + enc_str(sender_name);
            let r2a = enc_str(md2.name) + enc_u64(md2.size) + enc_str(md2.hash) + enc_u32(
                md2.chunk_size,
            ) + enc_str(si2) + enc_str(sn2);
            assert(f =~= enc_str(transfer_id) + r1a);
            assert(f =~= enc_str(t2) + r2a);
            lemma_step_str(f, transfer_id, r1a, t2, r2a);
            let r1b = enc_u64(metadata.size) + enc_str(metadata.hash) + enc_u32(
                metadata.chunk_size,
            ) + enc_str(sender_id) + enc_str(sender_name);
            let r2b = enc_u64(md2.size) + enc_str(md2.hash) + enc_u32(md2.chunk_size) + enc_str(
                si2,
            ) + enc_str(sn2);
            assert(r1a =~= enc_str(metadata.name) + r1b);
            assert(r2a =~= enc_str(md2.name) + r2b);
            lemma_step_str(r1a, metadata.name, r1b, md2.name, r2b);
            let r1c = enc_str(metadata.hash) + enc_u32(metadata.chunk_size) + enc_str(sender_id)
                + enc_str(sender_name);
            let r2c = enc_str(md2.hash) + enc_u32(md2.chunk_size) + enc_str(si2) + enc_str(sn2);
            assert(r1b =~= enc_u64(metadata.size) + r1c);
            assert(r2b =~= enc_u64(md2.size) + r2c);
            lemma_step_u64(r1b, metadata.size, r1c, md2.size, r2c);
            let r1d = enc_u32(metadata.chunk_size) + enc_str(sender_id) + enc_str(sender_name);
            let r2d = enc_u32(md2.chunk_size) + enc_str(si2) + enc_str(sn2);
            assert(r1c =~= enc_str(metadata.hash) + r1d);
            assert(r2c =~= enc_str(md2.hash) + r2d);
            lemma_step_str(r1c, metadata.hash, r1d, md2.hash, r2d);
            let r1e = enc_str(sender_id) + enc_str(sender_name);
            let r2e = enc_str(si2) + enc_str(sn2);
            assert(r1d =~= enc_u32(metadata.chunk_size) + r1e);
            assert(r2d =~= enc_u32(md2.chunk_size) + r2e);
            lemma_step_u32(r1d, metadata.chunk_size, r1e, md2.chunk_size, r2e);
            assert(r1e =~= enc_str(sender_id) + enc_str(sender_name));
            assert(r2e =~= enc_str(si2) + enc_str(sn2));
            lemma_step_str(r1e, sender_id, enc_str(sender_name), si2, enc_str(sn2));
            lemma_last_str(enc_str(sender_name), sender_name, sn2);
        },
        MessageView::ChunkData { transfer_id, chunk_index, data, chunk_hash } => {
            let t2 = m2->ChunkData_transfer_id;
            let i2 = m2->ChunkData_chunk_index;
            let d2 = m2->ChunkData_data;
            let h2 = m2->ChunkData_chunk_hash;
            let r1a = enc_u32(chunk_index) + enc_bytes(data) + enc_str(chunk_hash);
            let r2a = enc_u32(i2) + enc_bytes(d2) + enc_str(h2);
            assert(f =~= enc_str(transfer_id) + r1a);
            assert(f =~= enc_str(t2) + r2a);
            lemma_step_str(f, transfer_id, r1a, t2, r2a);
            let r1b = enc_bytes(data) + enc_str(chunk_hash);
            let r2b = enc_bytes(d2) + enc_str(h2);
            assert(r1a =~= enc_u32(chunk_index) + r1b);
            assert(r2a =~= enc_u32(i2) + r2b);
            lemma_step_u32(r1a, chunk_index, r1b, i2, r2b);
            lemma_step_bytes(r1b, data, enc_str(chunk_hash), d2, enc_str(h2));
            lemma_last_str(enc_str(chunk_hash), chunk_hash, h2);
        },
        MessageView::TransferPause { transfer_id } => {
            lemma_last_str(f, transfer_id, m2->TransferPause_transfer_id);
        },
        MessageView::TransferResume { transfer_id } => {
            lemma_last_str(f, transfer_id, m2->TransferResume_transfer_id);
        },
        MessageView::TransferCancel { transfer_id } => {
            lemma_last_str(f, transfer_id, m2->TransferCancel_transfer_id);
        },
        MessageView::TransferComplete { transfer_id } => {
            lemma_last_str(f, transfer_id, m2->TransferComplete_transfer_id);
        },
        MessageView::TransferCompleteAck { transfer_id } => {
            lemma_last_str(f, transfer_id, m2->TransferCompleteAck_transfer_id);
        },
        MessageView::TransferError { transfer_id, message } => {
            let t2 = m2->TransferError_transfer_id;
            let e2 = m2->TransferError_message;
            assert(f =~= enc_str(transfer_id) + enc_str(message));
            assert(f =~= enc_str(t2) + enc_str(e2));
            lemma_step_str(f, transfer_id, enc_str(message), t2, enc_str(e2));
            lemma_last_str(enc_str(message), message, e2);
        },
        MessageView::PairRequest { device_id, device_name, pairing_code } => {
            let d2 = m2->PairRequest_device_id;
            let n2 = m2->PairRequest_device_name;
            let c2 = m2->PairRequest_pairing_code;
            let r1a = enc_str(device_name) + enc_str(pairing_code);
            let r2a = enc_str(n2) + enc_str(c2);
            assert(f =~= enc_str(device_id) + r1a);
            assert(f =~= enc_str(d2) + r2a);
            lemma_step_str(f, device_id, r1a, d2, r2a);
            lemma_step_str(r1a, device_name, enc_str(pairing_code), n2, enc_str(c2));
            lemma_last_str(enc_str(pairing_code), pairing_code, c2);
        },
    }
}

/// Encodes `msg` as its canonical payload bytes, or reports that a field
/// does not fit its length prefix.
pub fn encode_message(msg: &MessageType) -> (r: Option<Vec<u8>>)
    ensures
        match r {
            Some(v) => msg_encodable(msg@) && v@ == enc_message(msg@),
            None => !msg_encodable(msg@),
        },
{
    let mut out: Vec<u8> = Vec::new();
    let ok: bool;
    match msg {
        MessageType::FileOffer { transfer_id, metadata, sender_id, sender_name } => {
            out.push(1);
            ok = write_str(&mut out, transfer_id) && write_str(&mut out, &metadata.name) && {
                write_u64(&mut out, metadata.size);
                write_str(&mut out, &metadata.hash)
            } && {
                write_u32(&mut out, metadata.chunk_size);
                write_str(&mut out, sender_id)
            } && write_str(&mut out, sender_name);
        },
        MessageType::ChunkData { transfer_id, chunk_index, data, chunk_hash } => {
            out.push(2);
            ok = write_str(&mut out, transfer_id) && {
                write_u32(&mut out, *chunk_index);
                write_bytes(&mut out, data)
            } && write_str(&mut out, chunk_hash);
        },
        MessageType::TransferPause { transfer_id } => {
            out.push(3);
            ok = write_str(&mut out, transfer_id);
        },
        MessageType::TransferResume { transfer_id } => {
            out.push(4);
            ok = write_str(&mut out, transfer_id);
        },
        MessageType::TransferCancel { transfer_id } => {
            out.push(5);
            ok = write_str(&mut out, transfer_id);
        },
        MessageType::TransferComplete { transfer_id } => {
            out.push(6);
            ok = write_str(&mut out, transfer_id);
        },
        MessageType::TransferCompleteAck { transfer_id } => {
            out.push(7);
            ok = write_str(&mut out, transfer_id);
        },
        MessageType::TransferError { transfer_id, message } => {
            out.push(8);
            ok = write_str(&mut out, transfer_id) && write_str(&mut out, message);
        },
        MessageType::PairRequest { device_id, device_name, pairing_code } => {
            out.push(9);
            ok = write_str(&mut out, device_id) && write_str(&mut out, device_name) && write_str(
                &mut out,
                pairing_code,
            );
        },
    }
    if ok {
        proof {
            assert(out@ =~= enc_message(msg@));
        }
        Some(out)
    } else {
        None
    }
}

#[verifier::rlimit(100)]
#[verifier::spinoff_prover]
proof fn offer_align(
    b: Seq<u8>,
    mv: MessageView,
    k: int,
    t0: Seq<char>,
    p1: int,
    nm0: Seq<char>,
    p2: int,
    sz0: u64,
    p3: int,
    h0: Seq<char>,
    p4: int,
    cs0: u32,
    p5: int,
    si0: Seq<char>,
    p6: int,
    sn0: Seq<char>,
    p7: int,
)
    requires
        mv is FileOffer,
        msg_encodable(mv),
        enc_message(mv) == b,
        1 <= k <= 7,
        k >= 1 ==> str_encodable(t0) && 1 <= p1 <= b.len() && b.subrange(1, p1) == enc_str(t0),
        k >= 2 ==> str_encodable(nm0) && p1 <= p2 <= b.len() && b.subrange(p1, p2) == enc_str(nm0),
        k >= 3 ==> p3 == p2 + 8 && p3 <= b.len() && b.subrange(p2, p3) == enc_u64(sz0),
        k >= 4 ==> str_encodable(h0) && p3 <= p4 <= b.len() && b.subrange(p3, p4) == enc_str(h0),
        k >= 5 ==> p5 == p4 + 4 && p5 <= b.len() && b.subrange(p4, p5) == enc_u32(cs0),
        k >= 6 ==> str_encodable(si0) && p5 <= p6 <= b.len() && b.subrange(p5, p6) == enc_str(
            si0,
        ),
        k >= 7 ==> str_encodable(sn0) && p6 <= p7 <= b.len() && b.subrange(p6, p7) == enc_str(
            sn0,
        ),
    ensures
        k == 1 ==> is_prefix(enc_str(mv->FileOffer_metadata.name), b.skip(p1)),
        k == 2 ==> is_prefix(enc_u64(mv->FileOffer_metadata.size), b.skip(p2)),
        k == 3 ==> is_prefix(enc_str(mv->FileOffer_metadata.hash), b.skip(p3)),
        k == 4 ==> is_prefix(enc_u32(mv->FileOffer_metadata.chunk_size), b.skip(p4)),
        k == 5 ==> is_prefix(enc_str(mv->FileOffer_sender_id), b.skip(p5)),
        k == 6 ==> is_prefix(enc_str(mv->FileOffer_sender_name), b.skip(p6)),
        k == 7 ==> p7 == b.len(),
{
    let ct = mv->FileOffer_transfer_id;
    let md = mv->FileOffer_metadata;
    let csi = mv->FileOffer_sender_id;
    let csn = mv->FileOffer_sender_name;
    lemma_message_head(mv);
    let fb = b.skip(1);
    assert(fb == enc_fields(mv));
    let r1 = enc_str(md.name) + enc_u64(md.size) + enc_str(md.hash) + enc_u32(md.chunk_size)
        + enc_str(csi) + enc_str(csn);
    assert(fb =~= enc_str(ct) + r1);
    lemma_parsed_prefix(b, 1, p1, enc_str(t0));
    lemma_chop_str(fb, ct, r1, t0);
    assert(r1 == b.skip(1).skip(enc_str(t0).len() as int));
    lemma_skip_skip(b, 1, p1 - 1);
    assert(r1 == b.skip(p1));
    if k == 1 {
        assert(r1 =~= enc_str(md.name) + (enc_u64(md.size) + enc_str(md.hash) + enc_u32(
            md.chunk_size,
        ) + enc_str(csi) + enc_str(csn)));
        lemma_concat_prefix(
            enc_str(md.name),
            enc_u64(md.size) + enc_str(md.hash) + enc_u32(md.chunk_size) + enc_str(csi) + enc_str(
                csn,
            ),
        );
    } else {
        let r2 = enc_u64(md.size) + enc_str(md.hash) + enc_u32(md.chunk_size) + enc_str(csi)
            + enc_str(csn);
        assert(b.skip(p1) =~= enc_str(md.name) + r2);
        lemma_parsed_prefix(b, p1, p2, enc_str(nm0));
        lemma_chop_str(b.skip(p1), md.name, r2, nm0);
        lemma_skip_skip(b, p1, p2 - p1);
        assert(r2 == b.skip(p2));
        if k == 2 {
            assert(r2 =~= enc_u64(md.size) + (enc_str(md.hash) + enc_u32(md.chunk_size) + enc_str(
                csi,
            ) + enc_str(csn)));
            lemma_concat_prefix(
                enc_u64(md.size),
                enc_str(md.hash) + enc_u32(md.chunk_size) + enc_str(csi) + enc_str(csn),
            );
        } else {
            let r3 = enc_str(md.hash) + enc_u32(md.chunk_size) + enc_str(csi) + enc_str(csn);
            assert(b.skip(p2) =~= enc_u64(md.size) + r3);
            lemma_parsed_prefix(b, p2, p3, enc_u64(sz0));
            lemma_chop_u64(b.skip(p2), md.size, r3, sz0);
            lemma_skip_skip(b, p2, 8);
            assert(r3 == b.skip(p3));
            if k == 3 {
                assert(r3 =~= enc_str(md.hash) + (enc_u32(md.chunk_size) + enc_str(csi) + enc_str(
                    csn,
                )));
                lemma_concat_prefix(
                    enc_str(md.hash),
                    enc_u32(md.chunk_size) + enc_str(csi) + enc_str(csn),
                );
            } else {
                let r4 = enc_u32(md.chunk_size) + enc_str(csi) + enc_str(csn);
                assert(b.skip(p3) =~= enc_str(md.hash) + r4);
                lemma_parsed_prefix(b, p3, p4, enc_str(h0));
                lemma_chop_str(b.skip(p3), md.hash, r4, h0);
                lemma_skip_skip(b, p3, p4 - p3);
                assert(r4 == b.skip(p4));
                if k == 4 {
                    assert(r4 =~= enc_u32(md.chunk_size) + (enc_str(csi) + enc_str(csn)));
                    lemma_concat_prefix(enc_u32(md.chunk_size), enc_str(csi) + enc_str(csn));
                } else {
                    let r5 = enc_str(csi) + enc_str(csn);
                    assert(b.skip(p4) =~= enc_u32(md.chunk_size) + r5);
                    lemma_parsed_prefix(b, p4, p5, enc_u32(cs0));
                    lemma_chop_u32(b.skip(p4), md.chunk_size, r5, cs0);
                    lemma_skip_skip(b, p4, 4);
                    assert(r5 == b.skip(p5));
                    if k == 5 {
                        lemma_concat_prefix(enc_str(csi), enc_str(csn));
                    } else {
                        let r6 = enc_str(csn);
                        lemma_parsed_prefix(b, p5, p6, enc_str(si0));
                        lemma_chop_str(b.skip(p5), csi, r6, si0);
                        lemma_skip_skip(b, p5, p6 - p5);
                        assert(r6 == b.skip(p6));
                        if k == 6 {
                            assert(b.skip(p6).subrange(0, enc_str(csn).len() as int) =~= enc_str(
                                csn,
                            ));
                        } else {
                            assert(b.skip(p6) =~= enc_str(csn) + Seq::<u8>::empty());
                            lemma_parsed_prefix(b, p6, p7, enc_str(sn0));
                            lemma_chop_str(b.skip(p6), csn, Seq::<u8>::empty(), sn0);
                            assert(p7 - p6 == enc_str(sn0).len());
                            assert(b.skip(p6).len() == enc_str(csn).len());
                        }
                    }
                }
            }
        }
    }
}

#[verifier::rlimit(100)]
#[verifier::spinoff_prover]
proof fn chunk_align(
    b: Seq<u8>,
    mv: MessageView,
    k: int,
    t0: Seq<char>,
    p1: int,
    i0: u32,
    p2: int,
    d0: Seq<u8>,
    p3: int,
    h0: Seq<char>,
    p4: int,
)
    requires
        mv is ChunkData,
        msg_encodable(mv),
        enc_message(mv) == b,
        1 <= k <= 4,
        k >= 1 ==> str_encodable(t0) && 1 <= p1 <= b.len() && b.subrange(1, p1) == enc_str(t0),
        k >= 2 ==> p2 == p1 + 4 && p2 <= b.len() && b.subrange(p1, p2) == enc_u32(i0),
        k >= 3 ==> d0.len() <= u32::MAX && p2 <= p3 <= b.len() && b.subrange(p2, p3) == enc_bytes(
            d0,
        ),
        k >= 4 ==> str_encodable(h0) && p3 <= p4 <= b.len() && b.subrange(p3, p4) == enc_str(h0),
    ensures
        k == 1 ==> is_prefix(enc_u32(mv->ChunkData_chunk_index), b.skip(p1)),
        k == 2 ==> is_prefix(enc_bytes(mv->ChunkData_data), b.skip(p2)),
        k == 3 ==> is_prefix(enc_str(mv->ChunkData_chunk_hash), b.skip(p3)),
        k == 4 ==> p4 == b.len(),
{
    let ct = mv->ChunkData_transfer_id;
    let ci = mv->ChunkData_chunk_index;
    let cd = mv->ChunkData_data;
    let ch = mv->ChunkData_chunk_hash;
    lemma_message_head(mv);
    let fb = b.skip(1);
    assert(fb == enc_fields(mv));
    let r1 = enc_u32(ci) + enc_bytes(cd) + enc_str(ch);
    assert(fb =~= enc_str(ct) + r1);
    lemma_parsed_prefix(b, 1, p1, enc_str(t0));
    lemma_chop_str(fb, ct, r1, t0);
    lemma_skip_skip(b, 1, p1 - 1);
    assert(r1 == b.skip(p1));
    if k == 1 {
        assert(r1 =~= enc_u32(ci) + (enc_bytes(cd) + enc_str(ch)));
        lemma_concat_prefix(enc_u32(ci), enc_bytes(cd) + enc_str(ch));
    } else {
        let r2 = enc_bytes(cd) + enc_str(ch);
        assert(b.skip(p1) =~= enc_u32(ci) + r2);
        lemma_parsed_prefix(b, p1, p2, enc_u32(i0));
        lemma_chop_u32(b.skip(p1), ci, r2, i0);
        lemma_skip_skip(b, p1, 4);
        assert(r2 == b.skip(p2));
        if k == 2 {
            lemma_concat_prefix(enc_bytes(cd), enc_str(ch));
        } else {
            let r3 = enc_str(ch);
            lemma_parsed_prefix(b, p2, p3, enc_bytes(d0));
            lemma_chop_bytes(b.skip(p2), cd, r3, d0);
            lemma_skip_skip(b, p2, p3 - p2);
            assert(r3 == b.skip(p3));
            if k == 3 {
                assert(b.skip(p3).subrange(0, enc_str(ch).len() as int) =~= enc_str(ch));
            } else {
                assert(b.skip(p3) =~= enc_str(ch) + Seq::<u8>::empty());
                lemma_parsed_prefix(b, p3, p4, enc_str(h0));
                lemma_chop_str(b.skip(p3), ch, Seq::<u8>::empty(), h0);
                assert(p4 - p3 == enc_str(h0).len());
                assert(b.skip(p3).len() == enc_str(ch).len());
            }
        }
    }
}

#[verifier::rlimit(100)]
#[verifier::spinoff_prover]
proof fn two_str_align(
    b: Seq<u8>,
    first: Seq<char>,
    second: Seq<char>,
    k: int,
    t0: Seq<char>,
    p1: int,
    m0: Seq<char>,
    p2: int,
)
    requires
        str_encodable(first),
        str_encodable(second),
        b.len() >= 1 && b.skip(1) == enc_str(first) + enc_str(second),
        1 <= k <= 2,
        k >= 1 ==> str_encodable(t0) && 1 <= p1 <= b.len() && b.subrange(1, p1) == enc_str(t0),
        k >= 2 ==> str_encodable(m0) && p1 <= p2 <= b.len() && b.subrange(p1, p2) == enc_str(m0),
    ensures
        k == 1 ==> is_prefix(enc_str(second), b.skip(p1)),
        k == 2 ==> p2 == b.len(),
{
    let fb = b.skip(1);
    lemma_parsed_prefix(b, 1, p1, enc_str(t0));
    lemma_chop_str(fb, first, enc_str(second), t0);
    lemma_skip_skip(b, 1, p1 - 1);
    assert(enc_str(second) == b.skip(p1));
    if k == 1 {
        assert(b.skip(p1).subrange(0, enc_str(second).len() as int) =~= enc_str(second));
    } else {
        assert(b.skip(p1) =~= enc_str(second) + Seq::<u8>::empty());
        lemma_parsed_prefix(b, p1, p2, enc_str(m0));
        lemma_chop_str(b.skip(p1), second, Seq::<u8>::empty(), m0);
        assert(p2 - p1 == enc_str(m0).len());
        assert(b.skip(p1).len() == enc_str(second).len());
    }
}

#[verifier::rlimit(100)]
#[verifier::spinoff_prover]
proof fn three_str_align(
    b: Seq<u8>,
    first: Seq<char>,
    second: Seq<char>,
    third: Seq<char>,
    k: int,
    a0: Seq<char>,
    p1: int,
    b0: Seq<char>,
    p2: int,
    c0: Seq<char>,
    p3: int,
)
    requires
        str_encodable(first),
        str_encodable(second),
        str_encodable(third),
        b.len() >= 1 && b.skip(1) == enc_str(first) + enc_str(second) + enc_str(third),
        1 <= k <= 3,
        k >= 1 ==> str_encodable(a0) && 1 <= p1 <= b.len() && b.subrange(1, p1) == enc_str(a0),
        k >= 2 ==> str_encodable(b0) && p1 <= p2 <= b.len() && b.subrange(p1, p2) == enc_str(b0),
        k >= 3 ==> str_encodable(c0) && p2 <= p3 <= b.len() && b.subrange(p2, p3) == enc_str(c0),
    ensures
        k == 1 ==> is_prefix(enc_str(second), b.skip(p1)),
        k == 2 ==> is_prefix(enc_str(third), b.skip(p2)),
        k == 3 ==> p3 == b.len(),
{
    let fb = b.skip(1);
    let r1 = enc_str(second) + enc_str(third);
    assert(fb =~= enc_str(first) + r1);
    lemma_parsed_prefix(b, 1, p1, enc_str(a0));
    lemma_chop_str(fb, first, r1, a0);
    lemma_skip_skip(b, 1, p1 - 1);
    assert(r1 == b.skip(p1));
    if k == 1 {
        lemma_concat_prefix(enc_str(second), enc_str(third));
    } else {
        lemma_parsed_prefix(b, p1, p2, enc_str(b0));
        lemma_chop_str(b.skip(p1), second, enc_str(third), b0);
        lemma_skip_skip(b, p1, p2 - p1);
        assert(enc_str(third) == b.skip(p2));
        if k == 2 {
            assert(b.skip(p2).subrange(0, enc_str(third).len() as int) =~= enc_str(third));
        } else {
            assert(b.skip(p2) =~= enc_str(third) + Seq::<u8>::empty());
            lemma_parsed_prefix(b, p2, p3, enc_str(c0));
            lemma_chop_str(b.skip(p2), third, Seq::<u8>::empty(), c0);
            assert(p3 - p2 == enc_str(c0).len());
            assert(b.skip(p2).len() == enc_str(third).len());
        }
    }
}

/// Parses the fields of a file offer. `None` means no message encodes to
/// these bytes.
#[verifier::rlimit(100)]
#[verifier::spinoff_prover]
fn read_file_offer(bytes: &Vec<u8>) -> (r: Option<MessageType>)
    requires
        bytes@.len() >= 1,
        bytes@[0] == 1,
    ensures
        match r {
            Some(m) => msg_encodable(m@) && enc_message(m@) == bytes@,
            None => forall|mv: MessageView|
                msg_encodable(mv) ==> #[trigger] enc_message(mv) != bytes@,
        },
{
    let ghost bb = bytes@;
    let ghost e: Seq<char> = Seq::empty();
    let r1 = match read_string(bytes, 1) {
        Some(v) => v,
        None => {
            proof {
                assert forall|mv: MessageView| msg_encodable(mv) implies #[trigger] enc_message(mv)
                    != bb by {
                    if enc_message(mv) == bb {
                        lemma_message_head(mv);
                        if mv is FileOffer {
                            lemma_message_head(mv);
                            let fb = bb.skip(1);
                            let md = mv->FileOffer_metadata;
                            let rst = enc_meta(md) + enc_str(mv->FileOffer_sender_id) + enc_str(
                                mv->FileOffer_sender_name,
                            );
                            assert(fb =~= enc_str(mv->FileOffer_transfer_id) + rst);
                            lemma_concat_prefix(enc_str(mv->FileOffer_transfer_id), rst);
                        }
                    }
                }
            }
            return None;
        },
    };
    let (tid, p1) = r1;
    let r2 = match read_string(bytes, p1) {
        Some(v) => v,
        None => {
            proof {
                assert forall|mv: MessageView| msg_encodable(mv) implies #[trigger] enc_message(mv)
                    != bb by {
                    if enc_message(mv) == bb && mv is FileOffer {
                        offer_align(
                            bb, mv, 1, tid@, p1 as int, e, 0, 0u64, 0, e, 0, 0u32, 0, e, 0, e, 0,
                        );
                    } else if enc_message(mv) == bb {
                        lemma_message_head(mv);
                    }
                }
            }
            return None;
        },
    };
    let (name, p2) = r2;
    let r3 = match read_u64(bytes, p2) {
        Some(v) => v,
        None => {
            proof {
                assert forall|mv: MessageView| msg_encodable(mv) implies #[trigger] enc_message(mv)
                    != bb by {
                    if enc_message(mv) == bb && mv is FileOffer {
                        offer_align(
                            bb, mv, 2, tid@, p1 as int, name@, p2 as int, 0u64, 0, e, 0, 0u32, 0,
                            e, 0, e, 0,
                        );
                        assert(bb.skip(p2 as int).len() >= 8);
                    } else if enc_message(mv) == bb {
                        lemma_message_head(mv);
                    }
                }
            }
            return None;
        },
    };
    let (size, p3) = r3;
    let r4 = match read_string(bytes, p3) {
        Some(v) => v,
        None => {
            proof {
                assert forall|mv: MessageView| msg_encodable(mv) implies #[trigger] enc_message(mv)
                    != bb by {
                    if enc_message(mv) == bb && mv is FileOffer {
                        offer_align(
                            bb, mv, 3, tid@, p1 as int, name@, p2 as int, size, p3 as int, e, 0,
                            0u32, 0, e, 0, e, 0,
                        );
                    } else if enc_message(mv) == bb {
                        lemma_message_head(mv);
                    }
                }
            }
            return None;
        },
    };
    let (hash, p4) = r4;
    let r5 = match read_u32(bytes, p4) {
        Some(v) => v,
        None => {
            proof {
                assert forall|mv: MessageView| msg_encodable(mv) implies #[trigger] enc_message(mv)
                    != bb by {
                    if enc_message(mv) == bb && mv is FileOffer {
                        offer_align(
                            bb, mv, 4, tid@, p1 as int, name@, p2 as int, size, p3 as int, hash@,
                            p4 as int, 0u32, 0, e, 0, e, 0,
                        );
                        assert(bb.skip(p4 as int).len() >= 4);
                    } else if enc_message(mv) == bb {
                        lemma_message_head(mv);
                    }
                }
            }
            return None;
        },
    };
    let (chunk_size, p5) = r5;
    let r6 = match read_string(bytes, p5) {
        Some(v) => v,
        None => {
            proof {
                assert forall|mv: MessageView| msg_encodable(mv) implies #[trigger] enc_message(mv)
                    != bb by {
                    if enc_message(mv) == bb && mv is FileOffer {
                        offer_align(
                            bb, mv, 5, tid@, p1 as int, name@, p2 as int, size, p3 as int, hash@,
                            p4 as int, chunk_size, p5 as int, e, 0, e, 0,
                        );
                    } else if enc_message(mv) == bb {
                        lemma_message_head(mv);
                    }
                }
            }
            return None;
        },
    };
    let (sender_id, p6) = r6;
    let r7 = match read_string(bytes, p6) {
        Some(v) => v,
        None => {
            proof {
                assert forall|mv: MessageView| msg_encodable(mv) implies #[trigger] enc_message(mv)
                    != bb by {
                    if enc_message(mv) == bb && mv is FileOffer {
                        offer_align(
                            bb, mv, 6, tid@, p1 as int, name@, p2 as int, size, p3 as int, hash@,
                            p4 as int, chunk_size, p5 as int, sender_id@, p6 as int, e, 0,
                        );
                    } else if enc_message(mv) == bb {
                        lemma_message_head(mv);
                    }
                }
            }
            return None;
        },
    };
    let (sender_name, p7) = r7;
    if p7 != bytes.len() {
        proof {
            assert forall|mv: MessageView| msg_encodable(mv) implies #[trigger] enc_message(mv)
                != bb by {
                if enc_message(mv) == bb && mv is FileOffer {
                    offer_align(
                        bb, mv, 7, tid@, p1 as int, name@, p2 as int, size, p3 as int, hash@,
                        p4 as int, chunk_size, p5 as int, sender_id@, p6 as int, sender_name@,
                        p7 as int,
                    );
                } else if enc_message(mv) == bb {
                    lemma_message_head(mv);
                }
            }
        }
        return None;
    }
    let m = MessageType::FileOffer {
        transfer_id: tid,
        metadata: FileMetadata { name, size, hash, chunk_size },
        sender_id,
        sender_name,
    };
    proof {
        assert(bb =~= enc_message(m@));
    }
    Some(m)
}

/// Parses the fields of a chunk. `None` means no message encodes to these
/// bytes.
#[verifier::rlimit(100)]
#[verifier::spinoff_prover]
fn read_chunk_data(bytes: &Vec<u8>) -> (r: Option<MessageType>)
    requires
        bytes@.len() >= 1,
        bytes@[0] == 2,
    ensures
        match r {
            Some(m) => msg_encodable(m@) && enc_message(m@) == bytes@,
            None => forall|mv: MessageView|
                msg_encodable(mv) ==> #[trigger] enc_message(mv) != bytes@,
        },
{
    let ghost bb = bytes@;
    let ghost e: Seq<char> = Seq::empty();
    let ghost eb: Seq<u8> = Seq::empty();
    let r1 = match read_string(bytes, 1) {
        Some(v) => v,
        None => {
            proof {
                assert forall|mv: MessageView| msg_encodable(mv) implies #[trigger] enc_message(mv)
                    != bb by {
                    if enc_message(mv) == bb {
                        lemma_message_head(mv);
                        if mv is ChunkData {
                            let fb = bb.skip(1);
                            let rst = enc_u32(mv->ChunkData_chunk_index) + enc_bytes(
                                mv->ChunkData_data,
                            ) + enc_str(mv->ChunkData_chunk_hash);
                            assert(fb =~= enc_str(mv->ChunkData_transfer_id) + rst);
                            lemma_concat_prefix(enc_str(mv->ChunkData_transfer_id), rst);
                        }
                    }
                }
            }
            return None;
        },
    };
    let (tid, p1) = r1;
    let r2 = match read_u32(bytes, p1) {
        Some(v) => v,
        None => {
            proof {
                assert forall|mv: MessageView| msg_encodable(mv) implies #[trigger] enc_message(mv)
                    != bb by {
                    if enc_message(mv) == bb && mv is ChunkData {
                        chunk_align(bb, mv, 1, tid@, p1 as int, 0u32, 0, eb, 0, e, 0);
                        assert(bb.skip(p1 as int).len() >= 4);
                    } else if enc_message(mv) == bb {
                        lemma_message_head(mv);
                    }
                }
            }
            return None;
        },
    };
    let (chunk_index, p2) = r2;
    let r3 = match read_bytes(bytes, p2) {
        Some(v) => v,
        None => {
            proof {
                assert forall|mv: MessageView| msg_encodable(mv) implies #[trigger] enc_message(mv)
                    != bb by {
                    if enc_message(mv) == bb && mv is ChunkData {
                        chunk_align(
                            bb, mv, 2, tid@, p1 as int, chunk_index, p2 as int, eb, 0, e, 0,
                        );
                    } else if enc_message(mv) == bb {
                        lemma_message_head(mv);
                    }
                }
            }
            return None;
        },
    };
    let (data, p3) = r3;
    let r4 = match read_string(bytes, p3) {
        Some(v) => v,
        None => {
            proof {
                assert forall|mv: MessageView| msg_encodable(mv) implies #[trigger] enc_message(mv)
                    != bb by {
                    if enc_message(mv) == bb && mv is ChunkData {
                        chunk_align(
                            bb, mv, 3, tid@, p1 as int, chunk_index, p2 as int, data@, p3 as int,
                            e, 0,
                        );
                    } else if enc_message(mv) == bb {
                        lemma_message_head(mv);
                    }
                }
            }
            return None;
        },
    };
    let (chunk_hash, p4) = r4;
    if p4 != bytes.len() {
        proof {
            assert forall|mv: MessageView| msg_encodable(mv) implies #[trigger] enc_message(mv)
                != bb by {
                if enc_message(mv) == bb && mv is ChunkData {
                    chunk_align(
                        bb, mv, 4, tid@, p1 as int, chunk_index, p2 as int, data@, p3 as int,
                        chunk_hash@, p4 as int,
                    );
                } else if enc_message(mv) == bb {
                    lemma_message_head(mv);
                }
            }
        }
        return None;
    }
    let m = MessageType::ChunkData { transfer_id: tid, chunk_index, data, chunk_hash };
    proof {
        assert(bb =~= enc_message(m@));
    }
    Some(m)
}

/// Parses a single-id control message (pause, resume, cancel, complete,
/// complete-ack). `None` means no message encodes to these bytes.
#[verifier::rlimit(100)]
#[verifier::spinoff_prover]
fn read_control(bytes: &Vec<u8>, tag: u8) -> (r: Option<MessageType>)
    requires
        bytes@.len() >= 1,
        bytes@[0] == tag,
        3 <= tag <= 7,
    ensures
        match r {
            Some(m) => msg_encodable(m@) && enc_message(m@) == bytes@,
            None => forall|mv: MessageView|
                msg_encodable(mv) ==> #[trigger] enc_message(mv) != bytes@,
        },
{
    let ghost bb = bytes@;
    let r1 = match read_string(bytes, 1) {
        Some(v) => v,
        None => {
            proof {
                assert forall|mv: MessageView| msg_encodable(mv) implies #[trigger] enc_message(mv)
                    != bb by {
                    if enc_message(mv) == bb {
                        lemma_message_head(mv);
                        let fb = bb.skip(1);
                        match mv {
                            MessageView::TransferPause { transfer_id } => {
                                assert(fb.subrange(0, enc_str(transfer_id).len() as int) =~= fb);
                            },
                            MessageView::TransferResume { transfer_id } => {
                                assert(fb.subrange(0, enc_str(transfer_id).len() as int) =~= fb);
                            },
                            MessageView::TransferCancel { transfer_id } => {
                                assert(fb.subrange(0, enc_str(transfer_id).len() as int) =~= fb);
                            },
                            MessageView::TransferComplete { transfer_id } => {
                                assert(fb.subrange(0, enc_str(transfer_id).len() as int) =~= fb);
                            },
                            MessageView::TransferCompleteAck { transfer_id } => {
                                assert(fb.subrange(0, enc_str(transfer_id).len() as int) =~= fb);
                            },
                            _ => {},
                        }
                    }
                }
            }
            return None;
        },
    };
    let (tid, p1) = r1;
    if p1 != bytes.len() {
        proof {
            assert forall|mv: MessageView| msg_encodable(mv) implies #[trigger] enc_message(mv)
                != bb by {
                if enc_message(mv) == bb {
                    lemma_message_head(mv);
                    let fb = bb.skip(1);
                    lemma_parsed_prefix(bb, 1, p1 as int, enc_str(tid@));
                    match mv {
                        MessageView::TransferPause { transfer_id } => {
                            assert(fb =~= enc_str(transfer_id) + Seq::<u8>::empty());
                            lemma_chop_str(fb, transfer_id, Seq::<u8>::empty(), tid@);
                        },
                        MessageView::TransferResume { transfer_id } => {
                            assert(fb =~= enc_str(transfer_id) + Seq::<u8>::empty());
                            lemma_chop_str(fb, transfer_id, Seq::<u8>::empty(), tid@);
                        },
                        MessageView::TransferCancel { transfer_id } => {
                            assert(fb =~= enc_str(transfer_id) + Seq::<u8>::empty());
                            lemma_chop_str(fb, transfer_id, Seq::<u8>::empty(), tid@);
                        },
                        MessageView::TransferComplete { transfer_id } => {
                            assert(fb =~= enc_str(transfer_id) + Seq::<u8>::empty());
                            lemma_chop_str(fb, transfer_id, Seq::<u8>::empty(), tid@);
                        },
                        MessageView::TransferCompleteAck { transfer_id } => {
                            assert(fb =~= enc_str(transfer_id) + Seq::<u8>::empty());
                            lemma_chop_str(fb, transfer_id, Seq::<u8>::empty(), tid@);
                        },
                        _ => {},
                    }
                }
            }
        }
        return None;
    }
    let m = if tag == 3 {
        MessageType::TransferPause { transfer_id: tid }
    } else if tag == 4 {
        MessageType::TransferResume { transfer_id: tid }
    } else if tag == 5 {
        MessageType::TransferCancel { transfer_id: tid }
    } else if tag == 6 {
        MessageType::TransferComplete { transfer_id: tid }
    } else {
        MessageType::TransferCompleteAck { transfer_id: tid }
    };
    proof {
        assert(bb =~= enc_message(m@));
    }
    Some(m)
}

/// Parses the fields of a transfer-error message. `None` means no message
/// encodes to these bytes.
#[verifier::rlimit(100)]
#[verifier::spinoff_prover]
fn read_error_msg(bytes: &Vec<u8>) -> (r: Option<MessageType>)
    requires
        bytes@.len() >= 1,
        bytes@[0] == 8,
    ensures
        match r {
            Some(m) => msg_encodable(m@) && enc_message(m@) == bytes@,
            None => forall|mv: MessageView|
                msg_encodable(mv) ==> #[trigger] enc_message(mv) != bytes@,
        },
{
    let ghost bb = bytes@;
    let ghost e: Seq<char> = Seq::empty();
    let r1 = match read_string(bytes, 1) {
        Some(v) => v,
        None => {
            proof {
                assert forall|mv: MessageView| msg_encodable(mv) implies #[trigger] enc_message(mv)
                    != bb by {
                    if enc_message(mv) == bb {
                        lemma_message_head(mv);
                        if mv is TransferError {
                            let fb = bb.skip(1);
                            assert(fb =~= enc_str(mv->TransferError_transfer_id) + enc_str(
                                mv->TransferError_message,
                            ));
                            lemma_concat_prefix(
                                enc_str(mv->TransferError_transfer_id),
                                enc_str(mv->TransferError_message),
                            );
                        }
                    }
                }
            }
            return None;
        },
    };
    let (tid, p1) = r1;
    let r2 = match read_string(bytes, p1) {
        Some(v) => v,
        None => {
            proof {
                assert forall|mv: MessageView| msg_encodable(mv) implies #[trigger] enc_message(mv)
                    != bb by {
                    if enc_message(mv) == bb && mv is TransferError {
                        lemma_message_head(mv);
                        two_str_align(
                            bb,
                            mv->TransferError_transfer_id,
                            mv->TransferError_message,
                            1,
                            tid@,
                            p1 as int,
                            e,
                            0,
                        );
                    } else if enc_message(mv) == bb {
                        lemma_message_head(mv);
                    }
                }
            }
            return None;
        },
    };
    let (message, p2) = r2;
    if p2 != bytes.len() {
        proof {
            assert forall|mv: MessageView| msg_encodable(mv) implies #[trigger] enc_message(mv)
                != bb by {
                if enc_message(mv) == bb && mv is TransferError {
                    lemma_message_head(mv);
                    two_str_align(
                        bb,
                        mv->TransferError_transfer_id,
                        mv->TransferError_message,
                        2,
                        tid@,
                        p1 as int,
                        message@,
                        p2 as int,
                    );
                } else if enc_message(mv) == bb {
                    lemma_message_head(mv);
                }
            }
        }
        return None;
    }
    let m = MessageType::TransferError { transfer_id: tid, message };
    proof {
        assert(bb =~= enc_message(m@));
    }
    Some(m)
}

/// Parses the fields of a pairing request. `None` means no message
/// encodes to these bytes.
#[verifier::rlimit(100)]
#[verifier::spinoff_prover]
fn read_pair_request(bytes: &Vec<u8>) -> (r: Option<MessageType>)
    requires
        bytes@.len() >= 1,
        bytes@[0] == 9,
    ensures
        match r {
            Some(m) => msg_encodable(m@) && enc_message(m@) == bytes@,
            None => forall|mv: MessageView|
                msg_encodable(mv) ==> #[trigger] enc_message(mv) != bytes@,
        },
{
    let ghost bb = bytes@;
    let ghost e: Seq<char> = Seq::empty();
    let r1 = match read_string(bytes, 1) {
        Some(v) => v,
        None => {
            proof {
                assert forall|mv: MessageView| msg_encodable(mv) implies #[trigger] enc_message(mv)
                    != bb by {
                    if enc_message(mv) == bb {
                        lemma_message_head(mv);
                        if mv is PairRequest {
                            let fb = bb.skip(1);
                            let rst = enc_str(mv->PairRequest_device_name) + enc_str(
                                mv->PairRequest_pairing_code,
                            );
                            assert(fb =~= enc_str(mv->PairRequest_device_id) + rst);
                            lemma_concat_prefix(enc_str(mv->PairRequest_device_id), rst);
                        }
                    }
                }
            }
            return None;
        },
    };
    let (device_id, p1) = r1;
    let r2 = match read_string(bytes, p1) {
        Some(v) => v,
        None => {
            proof {
                assert forall|mv: MessageView| msg_encodable(mv) implies #[trigger] enc_message(mv)
                    != bb by {
                    if enc_message(mv) == bb && mv is PairRequest {
                        lemma_message_head(mv);
                        three_str_align(
                            bb,
                            mv->PairRequest_device_id,
                            mv->PairRequest_device_name,
                            mv->PairRequest_pairing_code,
                            1,
                            device_id@,
                            p1 as int,
                            e,
                            0,
                            e,
                            0,
                        );
                    } else if enc_message(mv) == bb {
                        lemma_message_head(mv);
                    }
                }
            }
            return None;
        },
    };
    let (device_name, p2) = r2;
    let r3 = match read_string(bytes, p2) {
        Some(v) => v,
        None => {
            proof {
                assert forall|mv: MessageView| msg_encodable(mv) implies #[trigger] enc_message(mv)
                    != bb by {
                    if enc_message(mv) == bb && mv is PairRequest {
                        lemma_message_head(mv);
                        three_str_align(
                            bb,
                            mv->PairRequest_device_id,
                            mv->PairRequest_device_name,
                            mv->PairRequest_pairing_code,
                            2,
                            device_id@,
                            p1 as int,
                            device_name@,
                            p2 as int,
                            e,
                            0,
                        );
                    } else if enc_message(mv) == bb {
                        lemma_message_head(mv);
                    }
                }
            }
            return None;
        },
    };
    let (pairing_code, p3) = r3;
    if p3 != bytes.len() {
        proof {
            assert forall|mv: MessageView| msg_encodable(mv) implies #[trigger] enc_message(mv)
                != bb by {
                if enc_message(mv) == bb && mv is PairRequest {
                    lemma_message_head(mv);
                    three_str_align(
                        bb,
                        mv->PairRequest_device_id,
                        mv->PairRequest_device_name,
                        mv->PairRequest_pairing_code,
                        3,
                        device_id@,
                        p1 as int,
                        device_name@,
                        p2 as int,
                        pairing_code@,
                        p3 as int,
                    );
                } else if enc_message(mv) == bb {
                    lemma_message_head(mv);
                }
            }
        }
        return None;
    }
    let m = MessageType::PairRequest { device_id, device_name, pairing_code };
    proof {
        assert(bb =~= enc_message(m@));
    }
    Some(m)
}

/// Decodes one payload. Accepts exactly the canonical encodings: the
/// result is `Ok(m)` if and only if the bytes are `enc_message(m@)`, and
/// a malformed payload is a deserialisation fault.
pub fn decode_message(bytes: &Vec<u8>) -> (r: Result<MessageType, CoreError>)
    ensures
        r matches Ok(m) ==> msg_encodable(m@) && enc_message(m@) == bytes@,
        r matches Err(e) ==> e == CoreError::Deserialize,
        forall|mv: MessageView|
            msg_encodable(mv) && #[trigger] enc_message(mv) == bytes@ ==> r is Ok && r->Ok_0@
                == mv,
{
    let ghost bb = bytes@;
    if bytes.len() == 0 {
        proof {
            assert forall|mv: MessageView| msg_encodable(mv) implies #[trigger] enc_message(mv)
                != bb by {
                lemma_message_head(mv);
            }
        }
        return Err(CoreError::Deserialize);
    }
    let tag = bytes[0];
    let parsed: Option<MessageType> = if tag == 1 {
        read_file_offer(bytes)
    } else if tag == 2 {
        read_chunk_data(bytes)
    } else if 3 <= tag && tag <= 7 {
        read_control(bytes, tag)
    } else if tag == 8 {
        read_error_msg(bytes)
    } else if tag == 9 {
        read_pair_request(bytes)
    } else {
        proof {
            assert forall|mv: MessageView| msg_encodable(mv) implies #[trigger] enc_message(mv)
                != bb by {
                lemma_message_head(mv);
            }
        }
        None
    };
    match parsed {
        Some(m) => {
            proof {
                assert forall|mv: MessageView|
                    msg_encodable(mv) && #[trigger] enc_message(mv) == bb implies m@ == mv by {
                    lemma_enc_message_injective(m@, mv);
                }
            }
            Ok(m)
        },
        None => Err(CoreError::Deserialize),
    }
}

/// Frames `msg` for the wire: the canonical payload behind its big-endian
/// `u32` length. `None` reports a message too large to frame.
pub fn frame_message(msg: &MessageType) -> (r: Option<Vec<u8>>)
    ensures
        match r {
            Some(v) => {
                &&& msg_encodable(msg@)
                &&& enc_message(msg@).len() <= u32::MAX
                &&& v@ == enc_u32(enc_message(msg@).len() as u32) + enc_message(msg@)
            },
            None => !msg_encodable(msg@) || enc_message(msg@).len() > u32::MAX,
        },
{
    let payload = match encode_message(msg) {
        Some(p) => p,
        None => {
            return None;
        },
    };
    if payload.len() as u64 > u32::MAX as u64 {
        return None;
    }
    let mut out: Vec<u8> = Vec::new();
    write_u32(&mut out, payload.len() as u32);
    push_bytes(&mut out, payload.as_slice());
    proof {
        assert(out@ =~= enc_u32(enc_message(msg@).len() as u32) + enc_message(msg@));
    }
    Some(out)
}

} // verus!
