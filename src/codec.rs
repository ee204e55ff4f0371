use vstd::prelude::*;

use crate::digest::{push_digest, Digest};
use crate::parcel::{AuthenticStampedParcel, CommitteeAttestation};
use crate::state::{TransactionSender, UpdateMethod, UpdateRequest};

verus! {

/// A message of the gossip pipeline.
pub enum PubSubMsg {
    Transactions(AuthenticStampedParcel),
    Attestation(CommitteeAttestation),
    /// A request for the parcel with this digest.
    RequestTransactions(Digest),
}

/// The little-endian bytes of a `u64`.
#[verifier::opaque]
pub open spec fn u64_le(x: u64) -> Seq<u8> {
    seq![
        x as u8,
        (x >> 8u64) as u8,
        (x >> 16u64) as u8,
        (x >> 24u64) as u8,
        (x >> 32u64) as u8,
        (x >> 40u64) as u8,
        (x >> 48u64) as u8,
        (x >> 56u64) as u8,
    ]
}

/// The little-endian bytes of a `u32`.
#[verifier::opaque]
pub open spec fn u32_bytes(x: u32) -> Seq<u8> {
    seq![x as u8, (x >> 8u32) as u8, (x >> 16u32) as u8, (x >> 24u32) as u8]
}

/// A byte string prefixed by its length as a `u32`.
pub open spec fn framed(b: Seq<u8>) -> Seq<u8> {
    u32_bytes(b.len() as u32) + b
}

/// Byte strings, each framed, one after the other.
pub open spec fn framed_all(txs: Seq<Seq<u8>>) -> Seq<u8>
    decreases txs.len(),
{
    if txs.len() == 0 {
        seq![]
    } else {
        framed(txs[0]) + framed_all(txs.drop_first())
    }
}

/// Reads `n` framed byte strings off the front of `b`; returns them and what
/// follows.
pub open spec fn parse_frames(b: Seq<u8>, n: nat) -> Option<(Seq<Seq<u8>>, Seq<u8>)>
    decreases n,
{
    if n == 0 {
        Some((seq![], b))
    } else if b.len() < 4 {
        None
    } else {
        let len = read_u32(b.subrange(0, 4)) as int;
        if b.len() < 4 + len {
            None
        } else {
            match parse_frames(b.subrange(4 + len, b.len() as int), (n - 1) as nat) {
                Some(r) => Some((seq![b.subrange(4, 4 + len)] + r.0, r.1)),
                None => None,
            }
        }
    }
}

/// The message that `b` encodes, as `msg_view` shows it, if any.
pub open spec fn decode_spec(b: Seq<u8>) -> Option<(u8, Seq<Seq<u8>>, Seq<u8>, u64, u64, u32)> {
    if b.len() == 0 {
        None
    } else {
        let body = b.drop_first();
        if b[0] == 0 {
            if body.len() < 4 {
                None
            } else {
                match parse_frames(body.subrange(4, body.len() as int), read_u32(body.subrange(0, 4)) as nat) {
                    Some(r) => if r.1.len() == 48 {
                        Some(
                            (
                                0u8,
                                r.0,
                                r.1.subrange(0, 32),
                                read_u64(r.1.subrange(32, 40)),
                                read_u64(r.1.subrange(40, 48)),
                                0u32,
                            ),
                        )
                    } else {
                        None
                    },
                    None => None,
                }
            }
        } else if b[0] == 1 {
            if body.len() == 44 {
                Some(
                    (
                        1u8,
                        seq![],
                        body.subrange(0, 32),
                        read_u64(body.subrange(36, 44)),
                        0u64,
                        read_u32(body.subrange(32, 36)),
                    ),
                )
            } else {
                None
            }
        } else if b[0] == 2 {
            if body.len() == 32 {
                Some((2u8, seq![], body, 0u64, 0u64, 0u32))
            } else {
                None
            }
        } else {
            None
        }
    }
}

pub proof fn lemma_parse_frames(txs: Seq<Seq<u8>>, rest: Seq<u8>)
    requires
        forall|i: int| 0 <= i < txs.len() ==> (#[trigger] txs[i]).len() <= u32::MAX,
    ensures
        parse_frames(framed_all(txs) + rest, txs.len()) == Some((txs, rest)),
    decreases txs.len(),
{
    if txs.len() > 0 {
        let t = txs[0];
        let tail = txs.drop_first();
        assert forall|i: int| 0 <= i < tail.len() implies (#[trigger] tail[i]).len() <= u32::MAX by {
            assert(tail[i] == txs[i + 1]);
        }
        lemma_parse_frames(tail, rest);
        lemma_u32_round_trip(t.len() as u32);
        let b = framed_all(txs) + rest;
        assert(b =~= u32_bytes(t.len() as u32) + (t + (framed_all(tail) + rest)));
        assert(b.subrange(0, 4) =~= u32_bytes(t.len() as u32));
        lemma_u32_round_trip(t.len() as u32);
        assert(b.subrange(4, 4 + t.len() as int) =~= t);
        assert(b.subrange(4 + t.len() as int, b.len() as int) =~= framed_all(tail) + rest);
        assert(seq![t] + tail =~= txs);
    }
}

/// Decoding the encoding of a message gives the message back.
pub proof fn lemma_codec_round_trip(m: PubSubMsg)
    requires
        encodable(m),
    ensures
        decode_spec(encode_msg(m)) == Some(msg_view(m)),
{
    let b = encode_msg(m);
    let body = b.drop_first();
    match m {
        PubSubMsg::Transactions(p) => {
            lemma_u32_round_trip(p.transactions@.len() as u32);
            lemma_u64_round_trip(p.epoch);
            lemma_u64_round_trip(p.sub_dag_index);
        },
        PubSubMsg::Attestation(a) => {
            lemma_u32_round_trip(a.node_index);
            lemma_u64_round_trip(a.epoch);
        },
        _ => {},
    }
    match m {
        PubSubMsg::Transactions(p) => {
            let txs = p.transactions.deep_view();
            assert forall|i: int| 0 <= i < txs.len() implies (#[trigger] txs[i]).len() <= u32::MAX by {
                assert(txs[i] == p.transactions@[i].deep_view());
                assert(p.transactions@[i]@.len() <= u32::MAX);
            }
            let tail = p.last_executed@ + u64_le(p.epoch) + u64_le(p.sub_dag_index);
            assert(body =~= u32_bytes(txs.len() as u32) + (framed_all(txs) + tail));
            assert(body.subrange(0, 4) =~= u32_bytes(txs.len() as u32));
            lemma_u32_round_trip(txs.len() as u32);
            assert(body.subrange(4, body.len() as int) =~= framed_all(txs) + tail);
            lemma_parse_frames(txs, tail);
            assert(tail.subrange(0, 32) =~= p.last_executed@);
            assert(tail.subrange(32, 40) =~= u64_le(p.epoch));
            assert(tail.subrange(40, 48) =~= u64_le(p.sub_dag_index));
            lemma_u64_round_trip(p.epoch);
            lemma_u64_round_trip(p.sub_dag_index);
        },
        PubSubMsg::Attestation(a) => {
            assert(body =~= a.digest@ + u32_bytes(a.node_index) + u64_le(a.epoch));
            assert(body.subrange(0, 32) =~= a.digest@);
            assert(body.subrange(32, 36) =~= u32_bytes(a.node_index));
            assert(body.subrange(36, 44) =~= u64_le(a.epoch));
            lemma_u32_round_trip(a.node_index);
            lemma_u64_round_trip(a.epoch);
        },
        PubSubMsg::RequestTransactions(d) => {
            assert(body =~= d@);
        },
    }
}

/// The fields of a parcel, as the codec sees them.
pub open spec fn parcel_fields(p: AuthenticStampedParcel) -> (Seq<Seq<u8>>, Seq<u8>, u64, u64) {
    (p.transactions.deep_view(), p.last_executed@, p.epoch, p.sub_dag_index)
}

/// The encoding of a parcel: the number of transactions, each transaction
/// framed by its length, the back-pointer, the epoch and the sub-dag index.
pub open spec fn encode_parcel(txs: Seq<Seq<u8>>, last_executed: Seq<u8>, epoch: u64, sub_dag_index: u64) -> Seq<u8> {
    u32_bytes(txs.len() as u32) + framed_all(txs) + last_executed + u64_le(epoch) + u64_le(
        sub_dag_index,
    )
}

/// The encoding of a message: a tag byte, then the payload.
pub open spec fn encode_msg(m: PubSubMsg) -> Seq<u8> {
    match m {
        PubSubMsg::Transactions(p) => seq![0u8] + encode_parcel(
            p.transactions.deep_view(),
            p.last_executed@,
            p.epoch,
            p.sub_dag_index,
        ),
        PubSubMsg::Attestation(a) => seq![1u8] + a.digest@ + u32_bytes(a.node_index) + u64_le(
            a.epoch,
        ),
        PubSubMsg::RequestTransactions(d) => seq![2u8] + d@,
    }
}

/// Whether a message can be encoded: every length fits in a `u32`.
pub open spec fn encodable(m: PubSubMsg) -> bool {
    match m {
        PubSubMsg::Transactions(p) => {
            &&& p.transactions@.len() <= u32::MAX
            &&& forall|i: int|
                0 <= i < p.transactions@.len() ==> (#[trigger] p.transactions@[i])@.len() <= u32::MAX
        },
        _ => true,
    }
}

/// The view of a message that the codec keeps.
pub open spec fn msg_view(m: PubSubMsg) -> (u8, Seq<Seq<u8>>, Seq<u8>, u64, u64, u32) {
    match m {
        PubSubMsg::Transactions(p) => (
            0u8,
            p.transactions.deep_view(),
            p.last_executed@,
            p.epoch,
            p.sub_dag_index,
            0u32,
        ),
        PubSubMsg::Attestation(a) => (1u8, seq![], a.digest@, a.epoch, 0u64, a.node_index),
        PubSubMsg::RequestTransactions(d) => (2u8, seq![], d@, 0u64, 0u64, 0u32),
    }
}

#[verifier::opaque]
pub open spec fn read_u64(b: Seq<u8>) -> u64 {
    (b[0] as u64) | ((b[1] as u64) << 8u64) | ((b[2] as u64) << 16u64) | ((b[3] as u64) << 24u64)
        | ((b[4] as u64) << 32u64) | ((b[5] as u64) << 40u64) | ((b[6] as u64) << 48u64) | ((
    b[7] as u64) << 56u64)
}

#[verifier::opaque]
pub open spec fn read_u32(b: Seq<u8>) -> u32 {
    (b[0] as u32) | ((b[1] as u32) << 8u32) | ((b[2] as u32) << 16u32) | ((b[3] as u32) << 24u32)
}

/// The `u64` whose big-endian bytes are `b`.
#[verifier::opaque]
pub open spec fn read_u64_be(b: Seq<u8>) -> u64 {
    (b[7] as u64) | ((b[6] as u64) << 8u64) | ((b[5] as u64) << 16u64) | ((b[4] as u64) << 24u64)
        | ((b[3] as u64) << 32u64) | ((b[2] as u64) << 40u64) | ((b[1] as u64) << 48u64) | ((
    b[0] as u64) << 56u64)
}

pub proof fn lemma_u64_round_trip(x: u64)
    ensures
        read_u64(u64_le(x)) == x,
        u64_le(x).len() == 8,
{
    reveal(u64_le);
    reveal(read_u64);
    let b = u64_le(x);
    let (b0, b1, b2, b3, b4, b5, b6, b7) = (b[0], b[1], b[2], b[3], b[4], b[5], b[6], b[7]);
    assert(b0 == x as u8 && b1 == (x >> 8u64) as u8 && b2 == (x >> 16u64) as u8 && b3 == (x
        >> 24u64) as u8 && b4 == (x >> 32u64) as u8 && b5 == (x >> 40u64) as u8 && b6 == (x
        >> 48u64) as u8 && b7 == (x >> 56u64) as u8);
    assert((b0 as u64) | ((b1 as u64) << 8u64) | ((b2 as u64) << 16u64) | ((b3 as u64) << 24u64)
        | ((b4 as u64) << 32u64) | ((b5 as u64) << 40u64) | ((b6 as u64) << 48u64) | ((b7 as u64)
        << 56u64) == x) by (bit_vector)
        requires
            b0 == x as u8,
            b1 == (x >> 8u64) as u8,
            b2 == (x >> 16u64) as u8,
            b3 == (x >> 24u64) as u8,
            b4 == (x >> 32u64) as u8,
            b5 == (x >> 40u64) as u8,
            b6 == (x >> 48u64) as u8,
            b7 == (x >> 56u64) as u8,
    ;
}

pub proof fn lemma_u32_round_trip(x: u32)
    ensures
        read_u32(u32_bytes(x)) == x,
        u32_bytes(x).len() == 4,
{
    reveal(u32_bytes);
    reveal(read_u32);
    let b = u32_bytes(x);
    let (b0, b1, b2, b3) = (b[0], b[1], b[2], b[3]);
    assert(b0 == x as u8 && b1 == (x >> 8u32) as u8 && b2 == (x >> 16u32) as u8 && b3 == (x
        >> 24u32) as u8);
    assert((b0 as u32) | ((b1 as u32) << 8u32) | ((b2 as u32) << 16u32) | ((b3 as u32) << 24u32)
        == x) by (bit_vector)
        requires
            b0 == x as u8,
            b1 == (x >> 8u32) as u8,
            b2 == (x >> 16u32) as u8,
            b3 == (x >> 24u32) as u8,
    ;
}

pub proof fn lemma_framed_all_push(txs: Seq<Seq<u8>>, t: Seq<u8>)
    ensures
        framed_all(txs.push(t)) == framed_all(txs) + framed(t),
    decreases txs.len(),
{
    if txs.len() == 0 {
        assert(txs.push(t).drop_first() =~= Seq::<Seq<u8>>::empty());
        assert(framed_all(txs.push(t)) =~= framed(t) + framed_all(Seq::<Seq<u8>>::empty()));
        assert(framed_all(txs.push(t)) =~= framed_all(txs) + framed(t));
    } else {
        lemma_framed_all_push(txs.drop_first(), t);
        assert(txs.push(t).drop_first() =~= txs.drop_first().push(t));
        assert(framed_all(txs.push(t)) =~= framed_all(txs) + framed(t));
    }
}

/// Appends the little-endian bytes of a `u64`.
pub fn push_u64(out: &mut Vec<u8>, x: u64)
    ensures
        final(out)@ == old(out)@ + u64_le(x),
{
    reveal(u64_le);
    out.push(x as u8);
    out.push((x >> 8u64) as u8);
    out.push((x >> 16u64) as u8);
    out.push((x >> 24u64) as u8);
    out.push((x >> 32u64) as u8);
    out.push((x >> 40u64) as u8);
    out.push((x >> 48u64) as u8);
    out.push((x >> 56u64) as u8);
    assert(final(out)@ =~= old(out)@ + u64_le(x));
}

/// Appends the little-endian bytes of a `u32`.
pub fn push_u32(out: &mut Vec<u8>, x: u32)
    ensures
        final(out)@ == old(out)@ + u32_bytes(x),
{
    reveal(u32_bytes);
    out.push(x as u8);
    out.push((x >> 8u32) as u8);
    out.push((x >> 16u32) as u8);
    out.push((x >> 24u32) as u8);
    assert(final(out)@ =~= old(out)@ + u32_bytes(x));
}

/// Appends a byte string.
pub fn push_bytes(out: &mut Vec<u8>, b: &Vec<u8>)
    ensures
        final(out)@ == old(out)@ + b@,
{
    let ghost start = out@;
    let mut i: usize = 0;
    while i < b.len()
        invariant
            0 <= i <= b@.len(),
            out@ == start + b@.subrange(0, i as int),
        decreases b@.len() - i,
    {
        out.push(b[i]);
        assert(out@ =~= start + b@.subrange(0, i + 1));
        i = i + 1;
    }
    assert(b@.subrange(0, b@.len() as int) =~= b@);
}

/// The encoding of a message, or `None` where a length does not fit in a `u32`.
pub fn encode(m: &PubSubMsg) -> (r: Option<Vec<u8>>)
    ensures
        r is Some <==> encodable(*m),
        r is Some ==> r->Some_0@ == encode_msg(*m),
{
    let mut out: Vec<u8> = Vec::new();
    match m {
        PubSubMsg::Transactions(p) => {
            if p.transactions.len() > u32::MAX as usize {
                return None;
            }
            out.push(0u8);
            push_u32(&mut out, p.transactions.len() as u32);
            let ghost start = out@;
            assert(p.transactions.deep_view().subrange(0, 0) =~= Seq::<Seq<u8>>::empty());
            assert(out@ =~= start + framed_all(Seq::<Seq<u8>>::empty()));
            let mut i: usize = 0;
            while i < p.transactions.len()
                invariant
                    0 <= i <= p.transactions@.len(),
                    p.transactions@.len() <= u32::MAX,
                    *m is Transactions && m->Transactions_0 == *p,
                    out@ == start + framed_all(p.transactions.deep_view().subrange(0, i as int)),
                    forall|j: int| 0 <= j < i ==> (#[trigger] p.transactions@[j])@.len() <= u32::MAX,
                decreases p.transactions@.len() - i,
            {
                let t = &p.transactions[i];
                if t.len() > u32::MAX as usize {
                    assert(p.transactions@[i as int]@.len() > u32::MAX);
                    return None;
                }
                push_u32(&mut out, t.len() as u32);
                push_bytes(&mut out, t);
                proof {
                    let txs = p.transactions.deep_view();
                    assert(txs[i as int] =~= t@);
                    assert(txs.subrange(0, i + 1) =~= txs.subrange(0, i as int).push(t@));
                    lemma_framed_all_push(txs.subrange(0, i as int), t@);
                    assert(out@ =~= start + framed_all(txs.subrange(0, i + 1)));
                }
                i = i + 1;
            }
            assert(p.transactions.deep_view().subrange(0, p.transactions@.len() as int)
                =~= p.transactions.deep_view());
            push_digest(&mut out, &p.last_executed);
            push_u64(&mut out, p.epoch);
            push_u64(&mut out, p.sub_dag_index);
            assert(out@ =~= encode_msg(*m));
        },
        PubSubMsg::Attestation(a) => {
            out.push(1u8);
            push_digest(&mut out, &a.digest);
            push_u32(&mut out, a.node_index);
            push_u64(&mut out, a.epoch);
            assert(out@ =~= encode_msg(*m));
        },
        PubSubMsg::RequestTransactions(d) => {
            out.push(2u8);
            push_digest(&mut out, d);
            assert(out@ =~= encode_msg(*m));
        },
    }
    Some(out)
}

/// The `u64` stored little-endian at `pos`.
pub fn read_u64_at(b: &Vec<u8>, pos: usize) -> (r: u64)
    requires
        pos + 8 <= b@.len(),
    ensures
        r == read_u64(b@.subrange(pos as int, pos + 8)),
{
    reveal(read_u64);
    let _n = b.len();
    let s = Ghost(b@.subrange(pos as int, pos + 8));
    assert(s@[0] == b@[pos as int] && s@[1] == b@[pos + 1] && s@[2] == b@[pos + 2] && s@[3]
        == b@[pos + 3] && s@[4] == b@[pos + 4] && s@[5] == b@[pos + 5] && s@[6] == b@[pos + 6]
        && s@[7] == b@[pos + 7]);
    (b[pos] as u64) | ((b[pos + 1] as u64) << 8u64) | ((b[pos + 2] as u64) << 16u64) | ((b[pos
        + 3] as u64) << 24u64) | ((b[pos + 4] as u64) << 32u64) | ((b[pos + 5] as u64) << 40u64)
        | ((b[pos + 6] as u64) << 48u64) | ((b[pos + 7] as u64) << 56u64)
}

/// The `u64` stored big-endian at `pos`.
pub fn read_u64_be_at(b: &Vec<u8>, pos: usize) -> (r: u64)
    requires
        pos + 8 <= b@.len(),
    ensures
        r == read_u64_be(b@.subrange(pos as int, pos + 8)),
{
    reveal(read_u64_be);
    let _n = b.len();
    let s = Ghost(b@.subrange(pos as int, pos + 8));
    assert(s@[0] == b@[pos as int] && s@[1] == b@[pos + 1] && s@[2] == b@[pos + 2] && s@[3]
        == b@[pos + 3] && s@[4] == b@[pos + 4] && s@[5] == b@[pos + 5] && s@[6] == b@[pos + 6]
        && s@[7] == b@[pos + 7]);
    (b[pos + 7] as u64) | ((b[pos + 6] as u64) << 8u64) | ((b[pos + 5] as u64) << 16u64) | ((b[pos
        + 4] as u64) << 24u64) | ((b[pos + 3] as u64) << 32u64) | ((b[pos + 2] as u64) << 40u64)
        | ((b[pos + 1] as u64) << 48u64) | ((b[pos] as u64) << 56u64)
}

/// The `u32` stored little-endian at `pos`.
pub fn read_u32_at(b: &Vec<u8>, pos: usize) -> (r: u32)
    requires
        pos + 4 <= b@.len(),
    ensures
        r == read_u32(b@.subrange(pos as int, pos + 4)),
{
    reveal(read_u32);
    let _n = b.len();
    let s = Ghost(b@.subrange(pos as int, pos + 4));
    assert(s@[0] == b@[pos as int] && s@[1] == b@[pos + 1] && s@[2] == b@[pos + 2] && s@[3]
        == b@[pos + 3]);
    (b[pos] as u32) | ((b[pos + 1] as u32) << 8u32) | ((b[pos + 2] as u32) << 16u32) | ((b[pos
        + 3] as u32) << 24u32)
}

/// The 32 bytes at `pos`.
pub fn digest_at(b: &Vec<u8>, pos: usize) -> (r: Digest)
    requires
        pos + 32 <= b@.len(),
    ensures
        r@ == b@.subrange(pos as int, pos + 32),
{
    let _n = b.len();
    let mut d: Digest = [0u8; 32];
    let mut i: usize = 0;
    while i < 32
        invariant
            0 <= i <= 32,
            pos + 32 <= b@.len(),
            b@.len() <= usize::MAX,
            forall|j: int| 0 <= j < i ==> d@[j] == b@[pos + j],
        decreases 32 - i,
    {
        d[i] = b[pos + i];
        i = i + 1;
    }
    assert(d@ =~= b@.subrange(pos as int, pos + 32));
    d
}

/// The `len` bytes at `pos`.
pub fn bytes_at(b: &Vec<u8>, pos: usize, len: usize) -> (r: Vec<u8>)
    requires
        pos + len <= b@.len(),
    ensures
        r@ == b@.subrange(pos as int, pos + len),
{
    let _n = b.len();
    let mut r: Vec<u8> = Vec::new();
    let mut i: usize = 0;
    while i < len
        invariant
            0 <= i <= len,
            pos + len <= b@.len(),
            b@.len() <= usize::MAX,
            r@ == b@.subrange(pos as int, pos + i),
        decreases len - i,
    {
        r.push(b[pos + i]);
        assert(r@ =~= b@.subrange(pos as int, pos + i + 1));
        i = i + 1;
    }
    r
}

/// `parse` with the strings of `done` in front of those it read.
pub open spec fn after(done: Seq<Seq<u8>>, parse: Option<(Seq<Seq<u8>>, Seq<u8>)>) -> Option<
    (Seq<Seq<u8>>, Seq<u8>),
> {
    match parse {
        Some(r) => Some((done + r.0, r.1)),
        None => None,
    }
}

/// The message that `b` encodes, if any.
pub fn decode(b: &Vec<u8>) -> (r: Option<PubSubMsg>)
    ensures
        match decode_spec(b@) {
            None => r is None,
            Some(v) => r is Some && msg_view(r->Some_0) == v,
        },
{
    if b.len() == 0 {
        return None;
    }
    let ghost body = b@.drop_first();
    if b[0] == 1 {
        if b.len() != 45 {
            return None;
        }
        let digest = digest_at(b, 1);
        let node_index = read_u32_at(b, 33);
        let epoch = read_u64_at(b, 37);
        assert(body.subrange(0, 32) =~= b@.subrange(1, 33));
        assert(body.subrange(32, 36) =~= b@.subrange(33, 37));
        assert(body.subrange(36, 44) =~= b@.subrange(37, 45));
        return Some(PubSubMsg::Attestation(CommitteeAttestation { digest, node_index, epoch }));
    }
    if b[0] == 2 {
        if b.len() != 33 {
            return None;
        }
        let d = digest_at(b, 1);
        assert(body =~= b@.subrange(1, 33));
        return Some(PubSubMsg::RequestTransactions(d));
    }
    if b[0] != 0 || b.len() < 5 {
        return None;
    }
    let n = read_u32_at(b, 1);
    assert(body.subrange(0, 4) =~= b@.subrange(1, 5));
    let ghost start = body.subrange(4, body.len() as int);
    assert(start =~= b@.subrange(5, b@.len() as int));
    let mut transactions: Vec<Vec<u8>> = Vec::new();
    let mut pos: usize = 5;
    let mut k: u32 = 0;
    while k < n
        invariant
            5 <= pos <= b@.len(),
            k <= n,
            b@.len() >= 5,
            b@[0] == 0,
            start == b@.subrange(5, b@.len() as int),
            start == b@.drop_first().subrange(4, b@.len() - 1),
            n == read_u32(b@.drop_first().subrange(0, 4)),
            parse_frames(start, n as nat) == after(
                transactions.deep_view(),
                parse_frames(b@.subrange(pos as int, b@.len() as int), (n - k) as nat),
            ),
        decreases n - k,
    {
        let ghost rest = b@.subrange(pos as int, b@.len() as int);
        if b.len() - pos < 4 {
            assert(parse_frames(rest, (n - k) as nat) is None);
            assert(parse_frames(start, n as nat) is None);
            return None;
        }
        let len = read_u32_at(b, pos);
        assert(rest.subrange(0, 4) =~= b@.subrange(pos as int, pos + 4));
        if b.len() - pos - 4 < len as usize {
            assert(parse_frames(rest, (n - k) as nat) is None);
            assert(parse_frames(start, n as nat) is None);
            return None;
        }
        let t = bytes_at(b, pos + 4, len as usize);
        assert(rest.subrange(4, 4 + len as int) =~= t@);
        assert(rest.subrange(4 + len as int, rest.len() as int) =~= b@.subrange(
            pos + 4 + len as int,
            b@.len() as int,
        ));
        let ghost before = transactions.deep_view();
        transactions.push(t);
        assert(transactions@[transactions@.len() - 1].deep_view() =~= t@);
        assert(transactions.deep_view() =~= before.push(t@));
        proof {
            let tail = parse_frames(
                b@.subrange(pos + 4 + len as int, b@.len() as int),
                (n - k - 1) as nat,
            );
            if let Some(x) = tail {
                assert(before + (seq![t@] + x.0) =~= before.push(t@) + x.0);
            }
        }
        pos = pos + 4 + len as usize;
        k = k + 1;
    }
    let ghost last = b@.subrange(pos as int, b@.len() as int);
    assert(parse_frames(last, 0) == Some((Seq::<Seq<u8>>::empty(), last)));
    assert(transactions.deep_view() + Seq::<Seq<u8>>::empty() =~= transactions.deep_view());
    if b.len() - pos != 48 {
        return None;
    }
    let last_executed = digest_at(b, pos);
    let epoch = read_u64_at(b, pos + 32);
    let sub_dag_index = read_u64_at(b, pos + 40);
    assert(last.subrange(0, 32) =~= b@.subrange(pos as int, pos + 32));
    assert(last.subrange(32, 40) =~= b@.subrange(pos + 32, pos + 40));
    assert(last.subrange(40, 48) =~= b@.subrange(pos + 40, pos + 48));
    Some(
        PubSubMsg::Transactions(
            AuthenticStampedParcel { transactions, last_executed, epoch, sub_dag_index },
        ),
    )
}

/// The little-endian bytes of a `u128`.
pub open spec fn u128_le(x: u128) -> Seq<u8> {
    u64_le(x as u64) + u64_le((x >> 64u128) as u64)
}

pub open spec fn read_u128(b: Seq<u8>) -> u128 {
    ((read_u64(b.subrange(8, 16)) as u128) << 64u128) | (read_u64(b.subrange(0, 8)) as u128)
}

pub proof fn lemma_u128_round_trip(x: u128)
    ensures
        read_u128(u128_le(x)) == x,
        u128_le(x).len() == 16,
{
    let lo = x as u64;
    let hi = (x >> 64u128) as u64;
    lemma_u64_round_trip(lo);
    lemma_u64_round_trip(hi);
    let b = u128_le(x);
    assert(b.subrange(0, 8) =~= u64_le(lo));
    assert(b.subrange(8, 16) =~= u64_le(hi));
    assert(((hi as u128) << 64u128) | (lo as u128) == x) by (bit_vector)
        requires
            lo == x as u64,
            hi == (x >> 64u128) as u64,
    ;
}

/// The envelope of a transaction: its secondary nonce and chain.
pub open spec fn envelope(tx: UpdateRequest) -> (u128, u32) {
    (tx.secondary_nonce, tx.chain_id)
}

/// The fields of a transaction that the codec keeps besides its envelope:
/// sender kind and key, nonce, method kind, and the method's epoch, digest,
/// commodity and service.
pub open spec fn tx_view(tx: UpdateRequest) -> (u8, Seq<u8>, u64, u8, u64, Seq<u8>, u128, u32) {
    let (kind, key) = match tx.sender {
        TransactionSender::Node(k) => (0u8, k@),
        TransactionSender::Account(k) => (1u8, k@),
    };
    match tx.method {
        UpdateMethod::ChangeEpoch { epoch } => (kind, key, tx.nonce, 0u8, epoch, seq![], 0u128, 0u32),
        UpdateMethod::OptIn => (kind, key, tx.nonce, 1u8, 0u64, seq![], 0u128, 0u32),
        UpdateMethod::OptOut => (kind, key, tx.nonce, 2u8, 0u64, seq![], 0u128, 0u32),
        UpdateMethod::CommitteeSelectionBeaconCommit { commit } => (kind, key, tx.nonce, 3u8, 0u64, commit@, 0u128, 0u32),
        UpdateMethod::CommitteeSelectionBeaconReveal { reveal: secret } => (kind, key, tx.nonce, 4u8, 0u64, secret@, 0u128, 0u32),
        UpdateMethod::CommitteeSelectionBeaconCommitPhaseTimeout => (kind, key, tx.nonce, 5u8, 0u64, seq![], 0u128, 0u32),
        UpdateMethod::CommitteeSelectionBeaconRevealPhaseTimeout => (kind, key, tx.nonce, 6u8, 0u64, seq![], 0u128, 0u32),
        UpdateMethod::SubmitDeliveryAcknowledgmentAggregation { commodity, service_id } => (
            kind,
            key,
            tx.nonce,
            7u8,
            0u64,
            seq![],
            commodity,
            service_id,
        ),
    }
}

/// The fields of a method after its kind byte.
pub open spec fn method_payload(m: UpdateMethod) -> Seq<u8> {
    match m {
        UpdateMethod::ChangeEpoch { epoch } => u64_le(epoch),
        UpdateMethod::CommitteeSelectionBeaconCommit { commit } => commit@,
        UpdateMethod::CommitteeSelectionBeaconReveal { reveal: secret } => secret@,
        UpdateMethod::SubmitDeliveryAcknowledgmentAggregation { commodity, service_id } => u128_le(commodity) + u32_bytes(service_id),
        _ => seq![],
    }
}

/// The encoding of a transaction: secondary nonce, chain, sender kind and key,
/// nonce, method kind and the method's fields.
pub open spec fn encode_tx(tx: UpdateRequest) -> Seq<u8> {
    let v = tx_view(tx);
    u128_le(tx.secondary_nonce) + u32_bytes(tx.chain_id) + (seq![v.0] + v.1 + u64_le(tx.nonce)
        + seq![v.3] + method_payload(tx.method))
}

/// The transaction that `b` encodes, as `envelope` and `tx_view` show it, if any.
pub open spec fn decode_tx_spec(b: Seq<u8>) -> Option<((u128, u32), (u8, Seq<u8>, u64, u8, u64, Seq<u8>, u128, u32))> {
    if b.len() < 20 {
        None
    } else {
        match decode_body_spec(b.subrange(20, b.len() as int)) {
            Some(v) => Some(((read_u128(b.subrange(0, 16)), read_u32(b.subrange(16, 20))), v)),
            None => None,
        }
    }
}

/// The transaction body (after the envelope) that `b` encodes, if any.
pub open spec fn decode_body_spec(b: Seq<u8>) -> Option<(u8, Seq<u8>, u64, u8, u64, Seq<u8>, u128, u32)> {
    if b.len() < 42 || b[0] > 1 {
        None
    } else {
        let key = b.subrange(1, 33);
        let nonce = read_u64(b.subrange(33, 41));
        let kind = b[41];
        let rest = b.subrange(42, b.len() as int);
        if kind == 0 && rest.len() == 8 {
            Some((b[0], key, nonce, 0u8, read_u64(rest), seq![], 0u128, 0u32))
        } else if (kind == 1 || kind == 2 || kind == 5 || kind == 6) && rest.len() == 0 {
            Some((b[0], key, nonce, kind, 0u64, seq![], 0u128, 0u32))
        } else if (kind == 3 || kind == 4) && rest.len() == 32 {
            Some((b[0], key, nonce, kind, 0u64, rest, 0u128, 0u32))
        } else if kind == 7 && rest.len() == 20 {
            Some((b[0], key, nonce, 7u8, 0u64, seq![], read_u128(rest.subrange(0, 16)), read_u32(rest.subrange(16, 20))))
        } else {
            None
        }
    }
}

/// Decoding the encoding of a transaction gives the transaction back.
pub proof fn lemma_tx_round_trip(tx: UpdateRequest)
    ensures
        decode_tx_spec(encode_tx(tx)) == Some((envelope(tx), tx_view(tx))),
{
    let v = tx_view(tx);
    lemma_u128_round_trip(tx.secondary_nonce);
    lemma_u32_round_trip(tx.chain_id);
    lemma_u64_round_trip(tx.nonce);
    let whole = encode_tx(tx);
    let b = seq![v.0] + v.1 + u64_le(tx.nonce) + seq![v.3] + method_payload(tx.method);
    assert(whole.subrange(0, 16) =~= u128_le(tx.secondary_nonce));
    assert(whole.subrange(16, 20) =~= u32_bytes(tx.chain_id));
    assert(whole.subrange(20, whole.len() as int) =~= b);
    let payload = method_payload(tx.method);
    match tx.method {
        UpdateMethod::ChangeEpoch { epoch } => lemma_u64_round_trip(epoch),
        UpdateMethod::SubmitDeliveryAcknowledgmentAggregation { commodity, service_id } => {
            lemma_u128_round_trip(commodity);
            lemma_u32_round_trip(service_id);
            assert(payload.subrange(0, 16) =~= u128_le(commodity));
            assert(payload.subrange(16, 20) =~= u32_bytes(service_id));
        },
        _ => {},
    }
    assert(b.subrange(1, 33) =~= v.1);
    assert(b.subrange(33, 41) =~= u64_le(tx.nonce));
    assert(b.subrange(42, b.len() as int) =~= payload);
}

/// Appends the little-endian bytes of a `u128`.
pub fn push_u128(out: &mut Vec<u8>, x: u128)
    ensures
        final(out)@ == old(out)@ + u128_le(x),
{
    push_u64(out, x as u64);
    push_u64(out, (x >> 64u128) as u64);
    assert(final(out)@ =~= old(out)@ + u128_le(x));
}

/// The encoding of a transaction.
pub fn encode_transaction(tx: &UpdateRequest) -> (r: Vec<u8>)
    ensures
        r@ == encode_tx(*tx),
{
    let mut out: Vec<u8> = Vec::new();
    push_u128(&mut out, tx.secondary_nonce);
    push_u32(&mut out, tx.chain_id);
    match &tx.sender {
        TransactionSender::Node(k) => {
            out.push(0u8);
            push_digest(&mut out, k);
        },
        TransactionSender::Account(k) => {
            out.push(1u8);
            push_digest(&mut out, k);
        },
    }
    push_u64(&mut out, tx.nonce);
    let ghost head = out@;
    match tx.method {
        UpdateMethod::ChangeEpoch { epoch } => {
            out.push(0u8);
            push_u64(&mut out, epoch);
        },
        UpdateMethod::OptIn => out.push(1u8),
        UpdateMethod::OptOut => out.push(2u8),
        UpdateMethod::CommitteeSelectionBeaconCommit { commit } => {
            out.push(3u8);
            push_digest(&mut out, &commit);
        },
        UpdateMethod::CommitteeSelectionBeaconReveal { reveal: secret } => {
            out.push(4u8);
            push_digest(&mut out, &secret);
        },
        UpdateMethod::CommitteeSelectionBeaconCommitPhaseTimeout => out.push(5u8),
        UpdateMethod::CommitteeSelectionBeaconRevealPhaseTimeout => out.push(6u8),
        UpdateMethod::SubmitDeliveryAcknowledgmentAggregation { commodity, service_id } => {
            out.push(7u8);
            push_u128(&mut out, commodity);
            push_u32(&mut out, service_id);
        },
    }
    assert(out@ =~= encode_tx(*tx));
    out
}

/// The `u128` stored little-endian at `pos`.
pub fn read_u128_at(b: &Vec<u8>, pos: usize) -> (r: u128)
    requires
        pos + 16 <= b@.len(),
    ensures
        r == read_u128(b@.subrange(pos as int, pos + 16)),
{
    let _n = b.len();
    let lo = read_u64_at(b, pos);
    let hi = read_u64_at(b, pos + 8);
    let ghost s = b@.subrange(pos as int, pos + 16);
    assert(s.subrange(0, 8) =~= b@.subrange(pos as int, pos + 8));
    assert(s.subrange(8, 16) =~= b@.subrange(pos + 8, pos + 16));
    let h = hi as u128;
    let l = lo as u128;
    assert(h * 0x1_0000_0000_0000_0000u128 + l == (h << 64u128) | l) by (bit_vector)
        requires
            h <= 0xffff_ffff_ffff_ffffu128,
            l <= 0xffff_ffff_ffff_ffffu128,
    ;
    h * 0x1_0000_0000_0000_0000u128 + l
}

/// The transaction that `b` encodes, if any.
pub fn decode_transaction(b: &Vec<u8>) -> (r: Option<UpdateRequest>)
    ensures
        match decode_tx_spec(b@) {
            None => r is None,
            Some(v) => r is Some && envelope(r->Some_0) == v.0 && tx_view(r->Some_0) == v.1,
        },
{
    let n = b.len();
    if n < 62 || b[20] > 1 {
        return None;
    }
    let secondary_nonce = read_u128_at(b, 0);
    let chain_id = read_u32_at(b, 16);
    let ghost body = b@.subrange(20, n as int);
    assert(body.subrange(1, 33) =~= b@.subrange(21, 53));
    assert(body.subrange(33, 41) =~= b@.subrange(53, 61));
    assert(body[0] == b@[20] && body[41] == b@[61]);
    let key = digest_at(b, 21);
    let nonce = read_u64_at(b, 53);
    let kind = b[61];
    let ghost rest = b@.subrange(62, n as int);
    assert(body.subrange(42, body.len() as int) =~= rest);
    let sender = if b[20] == 0 {
        TransactionSender::Node(key)
    } else {
        TransactionSender::Account(key)
    };
    let method = if kind == 0 && n == 70 {
        let epoch = read_u64_at(b, 62);
        assert(rest =~= b@.subrange(62, 70));
        UpdateMethod::ChangeEpoch { epoch }
    } else if kind == 1 && n == 62 {
        UpdateMethod::OptIn
    } else if kind == 2 && n == 62 {
        UpdateMethod::OptOut
    } else if kind == 5 && n == 62 {
        UpdateMethod::CommitteeSelectionBeaconCommitPhaseTimeout
    } else if kind == 6 && n == 62 {
        UpdateMethod::CommitteeSelectionBeaconRevealPhaseTimeout
    } else if kind == 3 && n == 94 {
        let d = digest_at(b, 62);
        assert(rest =~= d@);
        UpdateMethod::CommitteeSelectionBeaconCommit { commit: d }
    } else if kind == 4 && n == 94 {
        let d = digest_at(b, 62);
        assert(rest =~= d@);
        UpdateMethod::CommitteeSelectionBeaconReveal { reveal: d }
    } else if kind == 7 && n == 82 {
        let commodity = read_u128_at(b, 62);
        let service_id = read_u32_at(b, 78);
        assert(rest.subrange(0, 16) =~= b@.subrange(62, 78));
        assert(rest.subrange(16, 20) =~= b@.subrange(78, 82));
        UpdateMethod::SubmitDeliveryAcknowledgmentAggregation { commodity, service_id }
    } else {
        return None;
    };
    Some(UpdateRequest { sender, method, nonce, secondary_nonce, chain_id })
}

} // verus!
