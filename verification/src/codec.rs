use vstd::prelude::*;

use crate::errors::CodecError;
use crate::packet::batch_view;
use crate::packet::batch_wf;
use crate::packet::AsIpcPacket;
use crate::packet::IpcPacket;
use crate::packet::Packet;
use crate::packet::PacketView;
use crate::packet::Timestamp;
use crate::packet::NANOS_PER_SEC;

verus! {

/// First byte of a data frame.
pub const BATCH_TAG: u8 = 1;

/// First byte (and whole body) of the end-of-stream sentinel frame.
pub const SENTINEL_TAG: u8 = 0;

/// The eight little-endian bytes of `n`.
pub open spec fn spec_le64(n: u64) -> Seq<u8> {
    seq![
        (n & 0xff) as u8,
        ((n >> 8) & 0xff) as u8,
        ((n >> 16) & 0xff) as u8,
        ((n >> 24) & 0xff) as u8,
        ((n >> 32) & 0xff) as u8,
        ((n >> 40) & 0xff) as u8,
        ((n >> 48) & 0xff) as u8,
        ((n >> 56) & 0xff) as u8,
    ]
}

/// The four little-endian bytes of `n`.
pub open spec fn spec_le32(n: u32) -> Seq<u8> {
    seq![
        (n & 0xff) as u8,
        ((n >> 8) & 0xff) as u8,
        ((n >> 16) & 0xff) as u8,
        ((n >> 24) & 0xff) as u8,
    ]
}

/// The value whose eight little-endian bytes stand at `pos`.
pub open spec fn spec_read_le64(s: Seq<u8>, pos: int) -> u64
    recommends
        0 <= pos,
        pos + 8 <= s.len(),
{
    (s[pos] as u64) | ((s[pos + 1] as u64) << 8) | ((s[pos + 2] as u64) << 16)
        | ((s[pos + 3] as u64) << 24) | ((s[pos + 4] as u64) << 32) | ((s[pos + 5] as u64) << 40)
        | ((s[pos + 6] as u64) << 48) | ((s[pos + 7] as u64) << 56)
}

/// The value whose four little-endian bytes stand at `pos`.
pub open spec fn spec_read_le32(s: Seq<u8>, pos: int) -> u32
    recommends
        0 <= pos,
        pos + 4 <= s.len(),
{
    (s[pos] as u32) | ((s[pos + 1] as u32) << 8) | ((s[pos + 2] as u32) << 16)
        | ((s[pos + 3] as u32) << 24)
}

/// Reading back the eight bytes written for `n` yields `n`.
pub proof fn lemma_le64_round(n: u64)
    ensures
        spec_le64(n).len() == 8,
        spec_read_le64(spec_le64(n), 0) == n,
{
    let b0 = (n & 0xff) as u8;
    let b1 = ((n >> 8) & 0xff) as u8;
    let b2 = ((n >> 16) & 0xff) as u8;
    let b3 = ((n >> 24) & 0xff) as u8;
    let b4 = ((n >> 32) & 0xff) as u8;
    let b5 = ((n >> 40) & 0xff) as u8;
    let b6 = ((n >> 48) & 0xff) as u8;
    let b7 = ((n >> 56) & 0xff) as u8;
    assert((b0 as u64) | ((b1 as u64) << 8) | ((b2 as u64) << 16) | ((b3 as u64) << 24)
        | ((b4 as u64) << 32) | ((b5 as u64) << 40) | ((b6 as u64) << 48) | ((b7 as u64) << 56)
        == n) by (bit_vector)
        requires
            b0 == (n & 0xff) as u8,
            b1 == ((n >> 8) & 0xff) as u8,
            b2 == ((n >> 16) & 0xff) as u8,
            b3 == ((n >> 24) & 0xff) as u8,
            b4 == ((n >> 32) & 0xff) as u8,
            b5 == ((n >> 40) & 0xff) as u8,
            b6 == ((n >> 48) & 0xff) as u8,
            b7 == ((n >> 56) & 0xff) as u8,
    ;
}

/// Reading back the four bytes written for `n` yields `n`.
pub proof fn lemma_le32_round(n: u32)
    ensures
        spec_le32(n).len() == 4,
        spec_read_le32(spec_le32(n), 0) == n,
{
    let b0 = (n & 0xff) as u8;
    let b1 = ((n >> 8) & 0xff) as u8;
    let b2 = ((n >> 16) & 0xff) as u8;
    let b3 = ((n >> 24) & 0xff) as u8;
    assert((b0 as u32) | ((b1 as u32) << 8) | ((b2 as u32) << 16) | ((b3 as u32) << 24) == n)
        by (bit_vector)
        requires
            b0 == (n & 0xff) as u8,
            b1 == ((n >> 8) & 0xff) as u8,
            b2 == ((n >> 16) & 0xff) as u8,
            b3 == ((n >> 24) & 0xff) as u8,
    ;
}

/// The wire form of one record: seconds, nanoseconds, payload length,
/// then the payload bytes themselves, each number little endian.
pub open spec fn spec_encode_packet(p: PacketView) -> Seq<u8> {
    spec_le64(p.ts.secs) + spec_le32(p.ts.nanos) + spec_le64(p.data.len() as u64) + p.data
}

/// The wire form of the records of a batch, one after the other.
pub open spec fn spec_encode_batch(ps: Seq<PacketView>) -> Seq<u8>
    decreases ps.len(),
{
    if ps.len() == 0 {
        Seq::empty()
    } else {
        spec_encode_packet(ps.first()) + spec_encode_batch(ps.drop_first())
    }
}

/// The wire form of a whole frame: the sentinel is one fixed tag byte;
/// a data frame is the other tag, a record count, then the records.
pub open spec fn spec_encode_frame(f: Option<Seq<PacketView>>) -> Seq<u8> {
    match f {
        Option::None => seq![SENTINEL_TAG],
        Option::Some(ps) => seq![BATCH_TAG] + spec_le64(ps.len() as u64) + spec_encode_batch(ps),
    }
}

/// Parse one record at `pos`: header of 20 bytes, then as many payload
/// bytes as the length prefix announces. Yields the record and the
/// position just past it.
pub open spec fn spec_parse_packet(s: Seq<u8>, pos: int) -> Result<(PacketView, int), CodecError>
    recommends
        0 <= pos,
{
    if pos + 20 > s.len() {
        Err(CodecError::Truncated)
    } else {
        let secs = spec_read_le64(s, pos);
        let nanos = spec_read_le32(s, pos + 8);
        let len = spec_read_le64(s, pos + 12) as int;
        if nanos >= NANOS_PER_SEC {
            Err(CodecError::CorruptTimestamp)
        } else if pos + 20 + len > s.len() {
            Err(CodecError::Truncated)
        } else {
            Ok(
                (
                    PacketView {
                        ts: Timestamp { secs, nanos },
                        data: s.subrange(pos + 20, pos + 20 + len),
                    },
                    pos + 20 + len,
                ),
            )
        }
    }
}

/// Parse `count` consecutive records starting at `pos`.
pub open spec fn spec_parse_batch(s: Seq<u8>, pos: int, count: nat) -> Result<
    (Seq<PacketView>, int),
    CodecError,
>
    decreases count,
{
    if count == 0 {
        Ok((Seq::empty(), pos))
    } else {
        match spec_parse_packet(s, pos) {
            Ok((p, next)) => match spec_parse_batch(s, next, (count - 1) as nat) {
                Ok((ps, end)) => Ok((seq![p] + ps, end)),
                Err(e) => Err(e),
            },
            Err(e) => Err(e),
        }
    }
}

/// Parse a whole frame. The sentinel must be alone in its message; a
/// data frame must consume every byte of the message.
pub open spec fn spec_parse_frame(s: Seq<u8>) -> Result<Option<Seq<PacketView>>, CodecError> {
    if s.len() < 1 {
        Err(CodecError::Truncated)
    } else if s[0] == SENTINEL_TAG {
        if s.len() == 1 {
            Ok(Option::None)
        } else {
            Err(CodecError::TrailingBytes)
        }
    } else if s[0] == BATCH_TAG {
        if s.len() < 9 {
            Err(CodecError::Truncated)
        } else {
            match spec_parse_batch(s, 9, spec_read_le64(s, 1) as nat) {
                Ok((ps, end)) => if end == s.len() {
                    Ok(Option::Some(ps))
                } else {
                    Err(CodecError::TrailingBytes)
                },
                Err(e) => Err(e),
            }
        }
    } else {
        Err(CodecError::UnknownTag)
    }
}

/// Decode of one record standing alone: it must fill its bytes exactly.
pub open spec fn spec_decode_packet(s: Seq<u8>) -> Result<PacketView, CodecError> {
    match spec_parse_packet(s, 0) {
        Ok((p, end)) => if end == s.len() {
            Ok(p)
        } else {
            Err(CodecError::TrailingBytes)
        },
        Err(e) => Err(e),
    }
}

/// Where the eight bytes of `n` stand at `pos`, reading at `pos` yields `n`.
proof fn lemma_read_le64_at(s: Seq<u8>, pos: int, n: u64)
    requires
        0 <= pos,
        pos + 8 <= s.len(),
        s.subrange(pos, pos + 8) == spec_le64(n),
    ensures
        spec_read_le64(s, pos) == n,
{
    let sub = s.subrange(pos, pos + 8);
    assert(s[pos] == sub[0]);
    assert(s[pos + 1] == sub[1]);
    assert(s[pos + 2] == sub[2]);
    assert(s[pos + 3] == sub[3]);
    assert(s[pos + 4] == sub[4]);
    assert(s[pos + 5] == sub[5]);
    assert(s[pos + 6] == sub[6]);
    assert(s[pos + 7] == sub[7]);
    lemma_le64_round(n);
}

/// Where the four bytes of `n` stand at `pos`, reading at `pos` yields `n`.
proof fn lemma_read_le32_at(s: Seq<u8>, pos: int, n: u32)
    requires
        0 <= pos,
        pos + 4 <= s.len(),
        s.subrange(pos, pos + 4) == spec_le32(n),
    ensures
        spec_read_le32(s, pos) == n,
{
    let sub = s.subrange(pos, pos + 4);
    assert(s[pos] == sub[0]);
    assert(s[pos + 1] == sub[1]);
    assert(s[pos + 2] == sub[2]);
    assert(s[pos + 3] == sub[3]);
    lemma_le32_round(n);
}

/// Parsing at the start of a record's encoding yields that record and
/// stops exactly after it, whatever stands before and after.
pub proof fn lemma_parse_packet_of_encode(p: PacketView, prefix: Seq<u8>, rest: Seq<u8>)
    requires
        p.wf(),
    ensures
        spec_parse_packet(prefix + spec_encode_packet(p) + rest, prefix.len() as int) == Ok::<
            _,
            CodecError,
        >((p, (prefix.len() + 20 + p.data.len()) as int)),
{
    let enc = spec_encode_packet(p);
    let s = prefix + enc + rest;
    let pos = prefix.len() as int;
    let len = p.data.len() as int;
    assert(enc.len() == 20 + len);
    assert(s.subrange(pos, pos + 8) =~= spec_le64(p.ts.secs));
    assert(s.subrange(pos + 8, pos + 12) =~= spec_le32(p.ts.nanos));
    assert(s.subrange(pos + 12, pos + 20) =~= spec_le64(p.data.len() as u64));
    lemma_read_le64_at(s, pos, p.ts.secs);
    lemma_read_le32_at(s, pos + 8, p.ts.nanos);
    lemma_read_le64_at(s, pos + 12, p.data.len() as u64);
    assert((p.data.len() as u64) as int == len);
    assert(s.subrange(pos + 20, pos + 20 + len) =~= p.data);
    assert(Timestamp { secs: p.ts.secs, nanos: p.ts.nanos } == p.ts);
}

/// Parsing `ps.len()` records at the start of a batch's encoding yields
/// exactly those records, in order, and stops exactly after them.
#[verifier::rlimit(100)]
pub proof fn lemma_parse_batch_of_encode(ps: Seq<PacketView>, prefix: Seq<u8>, rest: Seq<u8>)
    requires
        forall|i: int| 0 <= i < ps.len() ==> #[trigger] ps[i].wf(),
    ensures
        spec_parse_batch(prefix + spec_encode_batch(ps) + rest, prefix.len() as int, ps.len())
            == Ok::<_, CodecError>((ps, (prefix.len() + spec_encode_batch(ps).len()) as int)),
    decreases ps.len(),
{
    let s = prefix + spec_encode_batch(ps) + rest;
    let pos = prefix.len() as int;
    if ps.len() == 0 {
        assert(spec_encode_batch(ps).len() == 0);
        assert(Seq::<PacketView>::empty() =~= ps);
    } else {
        let p0 = ps.first();
        let tail = ps.drop_first();
        let enc0 = spec_encode_packet(p0);
        let enc_tail = spec_encode_batch(tail);
        assert(enc0.len() == 20 + p0.data.len());
        let next = pos + enc0.len();
        assert(spec_parse_packet(s, pos) == Ok::<_, CodecError>((p0, next))) by {
            assert(ps[0].wf());
            assert(prefix + enc0 + (enc_tail + rest) =~= s);
            lemma_parse_packet_of_encode(p0, prefix, enc_tail + rest);
        }
        assert(spec_parse_batch(s, next, tail.len()) == Ok::<_, CodecError>(
            (tail, next + enc_tail.len()),
        )) by {
            assert(forall|i: int| 0 <= i < tail.len() ==> #[trigger] tail[i].wf()) by {
                assert forall|i: int| 0 <= i < tail.len() implies #[trigger] tail[i].wf() by {
                    assert(tail[i] == ps[i + 1]);
                }
            }
            assert((prefix + enc0) + enc_tail + rest =~= s);
            lemma_parse_batch_of_encode(tail, prefix + enc0, rest);
        }
        assert(seq![p0] + tail =~= ps);
        assert(spec_encode_batch(ps).len() == enc0.len() + enc_tail.len());
    }
}

/// Round-trip law for whole frames: decoding the encoding of any frame
/// whose batch is well formed yields that frame, the sentinel staying
/// distinct from every data frame.
pub proof fn lemma_frame_round_trip(f: Option<Seq<PacketView>>)
    requires
        f matches Some(ps) ==> batch_wf(ps),
    ensures
        spec_parse_frame(spec_encode_frame(f)) == Ok::<_, CodecError>(f),
{
    match f {
        Option::None => {
            let s = spec_encode_frame(f);
            assert(s.len() == 1);
            assert(s[0] == SENTINEL_TAG);
        },
        Option::Some(ps) => {
            let s = spec_encode_frame(f);
            let head = seq![BATCH_TAG] + spec_le64(ps.len() as u64);
            assert(head.len() == 9);
            assert(s =~= head + spec_encode_batch(ps) + Seq::<u8>::empty());
            assert(s[0] == BATCH_TAG);
            assert(s.subrange(1, 9) =~= spec_le64(ps.len() as u64));
            lemma_read_le64_at(s, 1, ps.len() as u64);
            assert((ps.len() as u64) as nat == ps.len());
            lemma_parse_batch_of_encode(ps, head, Seq::empty());
            assert(s.len() == 9 + spec_encode_batch(ps).len());
        },
    }
}

/// Appending one record to a batch appends its encoding to the batch's.
proof fn lemma_encode_batch_push(ps: Seq<PacketView>, p: PacketView)
    ensures
        spec_encode_batch(ps.push(p)) == spec_encode_batch(ps) + spec_encode_packet(p),
    decreases ps.len(),
{
    if ps.len() == 0 {
        assert(ps.push(p).first() == p);
        assert(ps.push(p).drop_first() =~= Seq::<PacketView>::empty());
        assert(spec_encode_batch(ps.push(p)) == spec_encode_packet(p) + spec_encode_batch(
            Seq::<PacketView>::empty(),
        ));
        assert(spec_encode_packet(p) + Seq::<u8>::empty() =~= spec_encode_packet(p));
        assert(Seq::<u8>::empty() + spec_encode_packet(p) =~= spec_encode_packet(p));
    } else {
        assert(ps.push(p).first() == ps.first());
        assert(ps.push(p).drop_first() =~= ps.drop_first().push(p));
        lemma_encode_batch_push(ps.drop_first(), p);
        assert(spec_encode_batch(ps.push(p)) == spec_encode_packet(ps.first()) + (
        spec_encode_batch(ps.drop_first()) + spec_encode_packet(p)));
        assert(spec_encode_batch(ps) == spec_encode_packet(ps.first()) + spec_encode_batch(
            ps.drop_first(),
        ));
        assert(spec_encode_packet(ps.first()) + (spec_encode_batch(ps.drop_first())
            + spec_encode_packet(p)) =~= (spec_encode_packet(ps.first()) + spec_encode_batch(
            ps.drop_first(),
        )) + spec_encode_packet(p));
    }
}

/// Empty-batch transparency law: the empty batch travels as a valid
/// data frame of its own, never confused with the end-of-stream
/// sentinel, and decodes back to the empty batch.
pub proof fn lemma_empty_batch_transparency()
    ensures
        spec_encode_frame(Option::Some(Seq::<PacketView>::empty())) != spec_encode_frame(
            Option::<Seq<PacketView>>::None,
        ),
        spec_parse_frame(spec_encode_frame(Option::Some(Seq::<PacketView>::empty()))) == Ok::<
            Option<Seq<PacketView>>,
            CodecError,
        >(Option::Some(Seq::<PacketView>::empty())),
{
    let empty = Seq::<PacketView>::empty();
    assert(batch_wf(empty));
    lemma_frame_round_trip(Option::Some(empty));
    assert(spec_encode_frame(Option::Some(empty))[0] == BATCH_TAG);
    assert(spec_encode_frame(Option::<Seq<PacketView>>::None)[0] == SENTINEL_TAG);
}

/// Round-trip law for records: decoding the encoding of any well-formed
/// record yields the record itself — identical timestamp and payload.
pub proof fn lemma_packet_round_trip(p: PacketView)
    requires
        p.wf(),
    ensures
        spec_decode_packet(spec_encode_packet(p)) == Ok::<PacketView, CodecError>(p),
{
    lemma_parse_packet_of_encode(p, Seq::empty(), Seq::empty());
    assert(Seq::<u8>::empty() + spec_encode_packet(p) + Seq::<u8>::empty() =~= spec_encode_packet(
        p,
    ));
}

/// A batch result with what was already parsed put in front of it.
spec fn compose_parse(acc: Seq<PacketView>, r: Result<(Seq<PacketView>, int), CodecError>) -> Result<
    (Seq<PacketView>, int),
    CodecError,
> {
    match r {
        Ok((ps, end)) => Ok((acc + ps, end)),
        Err(e) => Err(e),
    }
}

/// The batch of records `f` carries, if it carries one.
pub open spec fn frame_view(f: Option<Vec<Packet>>) -> Option<Seq<PacketView>> {
    match f {
        Option::None => Option::None,
        Option::Some(b) => Option::Some(batch_view(b@)),
    }
}

fn push_le64(out: &mut Vec<u8>, n: u64)
    ensures
        final(out)@ == old(out)@ + spec_le64(n),
{
    let ghost orig = out@;
    out.push((n & 0xff) as u8);
    out.push(((n >> 8) & 0xff) as u8);
    out.push(((n >> 16) & 0xff) as u8);
    out.push(((n >> 24) & 0xff) as u8);
    out.push(((n >> 32) & 0xff) as u8);
    out.push(((n >> 40) & 0xff) as u8);
    out.push(((n >> 48) & 0xff) as u8);
    out.push(((n >> 56) & 0xff) as u8);
    proof {
        assert(out@ =~= orig + spec_le64(n));
    }
}

fn push_le32(out: &mut Vec<u8>, n: u32)
    ensures
        final(out)@ == old(out)@ + spec_le32(n),
{
    let ghost orig = out@;
    out.push((n & 0xff) as u8);
    out.push(((n >> 8) & 0xff) as u8);
    out.push(((n >> 16) & 0xff) as u8);
    out.push(((n >> 24) & 0xff) as u8);
    proof {
        assert(out@ =~= orig + spec_le32(n));
    }
}

fn push_bytes(out: &mut Vec<u8>, src: &Vec<u8>)
    ensures
        final(out)@ == old(out)@ + src@,
{
    let ghost orig = out@;
    let mut i: usize = 0;
    while i < src.len()
        invariant
            i <= src@.len(),
            out@ == orig + src@.take(i as int),
        decreases src@.len() - i,
    {
        out.push(src[i]);
        proof {
            assert(orig + src@.take((i + 1) as int) =~= (orig + src@.take(i as int)).push(
                src@[i as int],
            ));
        }
        i += 1;
    }
    proof {
        assert(src@.take(src@.len() as int) =~= src@);
    }
}

fn read_le64(s: &Vec<u8>, pos: usize) -> (n: u64)
    requires
        pos + 8 <= s@.len(),
    ensures
        n == spec_read_le64(s@, pos as int),
{
    // The length call brings the vector's length bound into scope,
    // so the index arithmetic below is visibly free of overflow.
    let _ = s.len();
    (s[pos] as u64) | ((s[pos + 1] as u64) << 8) | ((s[pos + 2] as u64) << 16) | ((s[pos
        + 3] as u64) << 24) | ((s[pos + 4] as u64) << 32) | ((s[pos + 5] as u64) << 40) | ((s[pos
        + 6] as u64) << 48) | ((s[pos + 7] as u64) << 56)
}

fn read_le32(s: &Vec<u8>, pos: usize) -> (n: u32)
    requires
        pos + 4 <= s@.len(),
    ensures
        n == spec_read_le32(s@, pos as int),
{
    // The length call brings the vector's length bound into scope,
    // so the index arithmetic below is visibly free of overflow.
    let _ = s.len();
    (s[pos] as u32) | ((s[pos + 1] as u32) << 8) | ((s[pos + 2] as u32) << 16) | ((s[pos
        + 3] as u32) << 24)
}

fn copy_range(v: &Vec<u8>, start: usize, end: usize) -> (r: Vec<u8>)
    requires
        start <= end,
        end <= v@.len(),
    ensures
        r@ == v@.subrange(start as int, end as int),
{
    let mut r: Vec<u8> = Vec::new();
    let mut i: usize = start;
    while i < end
        invariant
            start <= i <= end,
            end <= v@.len(),
            r@ == v@.subrange(start as int, i as int),
        decreases end - i,
    {
        r.push(v[i]);
        proof {
            assert(v@.subrange(start as int, (i + 1) as int) =~= v@.subrange(
                start as int,
                i as int,
            ).push(v@[i as int]));
        }
        i += 1;
    }
    r
}

/// Append the wire form of one record.
fn encode_packet_into(out: &mut Vec<u8>, p: &Packet)
    ensures
        final(out)@ == old(out)@ + spec_encode_packet(p@),
{
    let ghost orig = out@;
    push_le64(out, p.ts.secs);
    push_le32(out, p.ts.nanos);
    push_le64(out, p.data.len() as u64);
    push_bytes(out, &p.data);
    proof {
        assert(out@ =~= orig + spec_encode_packet(p@));
    }
}

/// Encode one record for transport: deterministic and lossless. Any
/// producible-as-wire-record source is accepted; the wire form is
/// derived through the capability, never from the concrete type.
pub fn encode<T: AsIpcPacket>(record: &T) -> (bytes: Vec<u8>)
    ensures
        bytes@ == spec_encode_packet(
            PacketView { ts: record.timestamp_spec(), data: record.data_spec() },
        ),
{
    let wire = IpcPacket::from_source(record);
    let packet = Packet::from(wire);
    let mut out: Vec<u8> = Vec::new();
    encode_packet_into(&mut out, &packet);
    proof {
        assert(Seq::<u8>::empty() + spec_encode_packet(packet@) =~= spec_encode_packet(packet@));
    }
    out
}

/// Parse one record at `pos`, returning it with the position just past it.
fn parse_packet(bytes: &Vec<u8>, pos: usize) -> (r: Result<(Packet, usize), CodecError>)
    requires
        pos <= bytes@.len(),
    ensures
        r matches Ok((p, end)) ==> spec_parse_packet(bytes@, pos as int) == Ok::<_, CodecError>(
            (p@, end as int),
        ) && pos < end <= bytes@.len(),
        r matches Err(e) ==> spec_parse_packet(bytes@, pos as int) == Err::<
            (PacketView, int),
            CodecError,
        >(e),
{
    let blen = bytes.len();
    if blen - pos < 20 {
        return Err(CodecError::Truncated);
    }
    let secs = read_le64(bytes, pos);
    let nanos = read_le32(bytes, pos + 8);
    let len64 = read_le64(bytes, pos + 12);
    if nanos >= NANOS_PER_SEC {
        return Err(CodecError::CorruptTimestamp);
    }
    if len64 > (blen - (pos + 20)) as u64 {
        return Err(CodecError::Truncated);
    }
    let len = len64 as usize;
    let data = copy_range(bytes, pos + 20, pos + 20 + len);
    Ok((Packet { ts: Timestamp { secs, nanos }, data }, pos + 20 + len))
}

/// Decode one record standing alone in `bytes`; rejects, with the exact
/// cause, every byte sequence that is not the encoding of a record.
pub fn decode(bytes: &Vec<u8>) -> (r: Result<Packet, CodecError>)
    ensures
        r matches Ok(p) ==> spec_decode_packet(bytes@) == Ok::<PacketView, CodecError>(p@),
        r matches Err(e) ==> spec_decode_packet(bytes@) == Err::<PacketView, CodecError>(e),
{
    match parse_packet(bytes, 0) {
        Ok((p, end)) => if end == bytes.len() {
            Ok(p)
        } else {
            Err(CodecError::TrailingBytes)
        },
        Err(e) => Err(e),
    }
}

/// The wire form of a data frame around `batch`.
pub fn encode_batch_frame(batch: &Vec<Packet>) -> (bytes: Vec<u8>)
    ensures
        bytes@ == spec_encode_frame(Option::Some(batch_view(batch@))),
{
    let mut out: Vec<u8> = Vec::new();
    out.push(BATCH_TAG);
    push_le64(&mut out, batch.len() as u64);
    proof {
        assert(out@ =~= seq![BATCH_TAG] + spec_le64(batch@.len() as u64));
        assert(batch_view(batch@).take(0) =~= Seq::<PacketView>::empty());
        assert(out@ + Seq::<u8>::empty() =~= out@);
    }
    let ghost head = out@;
    let mut i: usize = 0;
    while i < batch.len()
        invariant
            i <= batch@.len(),
            head == seq![BATCH_TAG] + spec_le64(batch@.len() as u64),
            out@ == head + spec_encode_batch(batch_view(batch@).take(i as int)),
        decreases batch@.len() - i,
    {
        encode_packet_into(&mut out, &batch[i]);
        proof {
            let views = batch_view(batch@);
            lemma_encode_batch_push(views.take(i as int), batch@[i as int]@);
            assert(views.take((i + 1) as int) =~= views.take(i as int).push(batch@[i as int]@));
            assert(head + (spec_encode_batch(views.take(i as int)) + spec_encode_packet(
                batch@[i as int]@,
            )) =~= (head + spec_encode_batch(views.take(i as int))) + spec_encode_packet(
                batch@[i as int]@,
            ));
        }
        i += 1;
    }
    proof {
        assert(batch_view(batch@).take(batch@.len() as int) =~= batch_view(batch@));
        assert(head + spec_encode_batch(batch_view(batch@)) =~= spec_encode_frame(
            Option::Some(batch_view(batch@)),
        ));
    }
    out
}

/// The wire form of the end-of-stream sentinel frame.
pub fn encode_sentinel_frame() -> (bytes: Vec<u8>)
    ensures
        bytes@ == spec_encode_frame(Option::<Seq<PacketView>>::None),
{
    let mut out: Vec<u8> = Vec::new();
    out.push(SENTINEL_TAG);
    proof {
        assert(out@ =~= seq![SENTINEL_TAG]);
    }
    out
}

/// Decode one whole frame as the receiving side observes it: either a
/// batch of records or the end-of-stream sentinel; rejects, with the
/// exact cause, every byte sequence that is not the encoding of a frame.
pub fn decode_frame(bytes: &Vec<u8>) -> (r: Result<Option<Vec<Packet>>, CodecError>)
    ensures
        r matches Ok(f) ==> spec_parse_frame(bytes@) == Ok::<Option<Seq<PacketView>>, CodecError>(
            frame_view(f),
        ),
        r matches Err(e) ==> spec_parse_frame(bytes@) == Err::<
            Option<Seq<PacketView>>,
            CodecError,
        >(e),
{
    let blen = bytes.len();
    if blen < 1 {
        return Err(CodecError::Truncated);
    }
    let tag = bytes[0];
    if tag == SENTINEL_TAG {
        if blen == 1 {
            Ok(Option::None)
        } else {
            Err(CodecError::TrailingBytes)
        }
    } else if tag == BATCH_TAG {
        if blen < 9 {
            return Err(CodecError::Truncated);
        }
        let count = read_le64(bytes, 1);
        let ghost whole = spec_parse_batch(bytes@, 9, count as nat);
        let mut acc: Vec<Packet> = Vec::new();
        let mut cur: usize = 9;
        let mut i: u64 = 0;
        proof {
            assert(batch_view(acc@) =~= Seq::<PacketView>::empty());
            assert(Seq::<PacketView>::empty() + whole->Ok_0.0 =~= whole->Ok_0.0);
        }
        while i < count
            invariant
                i <= count,
                cur <= bytes@.len(),
                batch_view(acc@).len() == i,
                9 <= bytes@.len(),
                bytes@[0] == BATCH_TAG,
                count == spec_read_le64(bytes@, 1),
                whole == spec_parse_batch(bytes@, 9, count as nat),
                compose_parse(
                    batch_view(acc@),
                    spec_parse_batch(bytes@, cur as int, (count - i) as nat),
                ) == whole,
            decreases count - i,
        {
            match parse_packet(bytes, cur) {
                Ok((p, end)) => {
                    proof {
                        let views = batch_view(acc@);
                        let n = (count - i) as nat;
                        let r2 = spec_parse_batch(bytes@, end as int, (n - 1) as nat);
                        assert(batch_view(acc@.push(p)) =~= views.push(p@));
                        match r2 {
                            Ok((ps2, e2)) => {
                                assert(views + (seq![p@] + ps2) =~= views.push(p@) + ps2);
                            },
                            Err(_) => {},
                        }
                    }
                    acc.push(p);
                    cur = end;
                    i = i + 1;
                },
                Err(e) => {
                    proof {
                        let n = (count - i) as nat;
                        assert(spec_parse_batch(bytes@, cur as int, n) == Err::<
                            (Seq<PacketView>, int),
                            CodecError,
                        >(e));
                        assert(whole == Err::<(Seq<PacketView>, int), CodecError>(e));
                    }
                    return Err(e);
                },
            }
        }
        proof {
            assert(batch_view(acc@) + Seq::<PacketView>::empty() =~= batch_view(acc@));
        }
        if cur == blen {
            Ok(Option::Some(acc))
        } else {
            Err(CodecError::TrailingBytes)
        }
    } else {
        Err(CodecError::UnknownTag)
    }
}

} // verus!
