//! Reliable, sequenced, multi-channel transport: per-channel send sequence
//! numbers, the unacked table that drives retransmission, split
//! reassembly, acknowledgement bookkeeping and inbound duplicate
//! suppression. The functions here never touch a socket: callers hand in
//! received datagrams and send out the returned ones.

use crate::frame::{
    dec_header_s, decode_frame, enc_frame, encode_frame, Control, PacketHeader, PacketType,
    ProtocolError, Reliability, Split,
};
use vstd::prelude::*;

verus! {

/// Payloads longer than this are fragmented into Split frames.
pub const SPLIT_THRESHOLD: usize = 400;

/// First sequence number of every outbound reliable stream.
pub const INITIAL_SEQNUM: u16 = 0xFFDC;

/// Number of channels multiplexed on the socket.
pub const CHANNEL_COUNT: u8 = 3;

/// First retransmission timeout.
pub const RTO_INITIAL_MS: u64 = 100;

/// Ceiling of the exponential retransmission backoff.
pub const RTO_CAP_MS: u64 = 1600;

/// A frame is given up (and the session failed) after this many sends.
pub const MAX_SEND_ATTEMPTS: u8 = 8;

/// Transport failures beyond frame parsing.
#[derive(Debug, Clone, Copy, PartialEq, Eq, Structural)]
pub enum TransportError {
    /// Two Split streams with the same channel and seqnum disagree on the
    /// chunk count.
    SplitCollision,
    /// A Split chunk index is outside the announced chunk count.
    SplitChunkRange,
    /// The same Split chunk arrived twice.
    SplitChunkDuplicate,
    /// A payload too long even for fragmentation.
    PayloadTooLarge,
    /// A reliable frame went unacknowledged through every retransmission.
    PeerUnresponsive,
    /// The handshake did not finish within its deadline.
    HandshakeTimeout,
}

/// `a` comes strictly before `b` in the 16-bit circular order (within a
/// 32768-wide window).
pub open spec fn seq_before(a: u16, b: u16) -> bool {
    ((b - a) % 0x10000int) != 0 && ((b - a) % 0x10000int) < 0x8000
}

/// Executable form of `seq_before`.
pub fn seqnum_before(a: u16, b: u16) -> (r: bool)
    ensures
        r == seq_before(a, b),
{
    let d = b.wrapping_sub(a);
    proof {
        assert(d == (b - a) % 0x10000int) by (bit_vector)
            requires
                d == b.wrapping_sub(a),
        ;
    }
    d != 0 && d < 0x8000
}

/// Successor in the 16-bit circular order.
pub open spec fn seq_next(a: u16) -> u16 {
    ((a + 1) % 0x10000int) as u16
}

/// Each allocation comes strictly after the one before it, also across the
/// wrap from `0xFFFF` to `0x0000`.
pub proof fn lemma_seq_strictly_increasing(a: u16)
    ensures
        seq_before(a, seq_next(a)),
        seq_next(0xFFFF) == 0,
{
}

/// Advancing the counter once more lands on the next offset.
proof fn lemma_seq_add_step(s0: u16, k: u16)
    requires
        k < 0xFFFF,
    ensures
        seq_add(s0, 0) == s0,
        seq_next(seq_add(s0, k)) == seq_add(s0, (k + 1) as u16),
{
    let a = s0 + k;
    assert(a % 0x10000int == if a < 0x10000 {
        a as int
    } else {
        a - 0x10000
    });
    let b = s0 + k + 1;
    assert(b % 0x10000int == if b < 0x10000 {
        b as int
    } else {
        b - 0x10000
    });
}

/// Distinct offsets from one base give distinct seqnums.
proof fn lemma_seq_add_injective(a: u16, t: u16, k: u16)
    requires
        t != k,
    ensures
        seq_add(a, t) != seq_add(a, k),
{
    let x = a.wrapping_add(t);
    let y = a.wrapping_add(k);
    assert(x == (a + t) % 0x10000int && y == (a + k) % 0x10000int && x != y) by (bit_vector)
        requires
            x == a.wrapping_add(t),
            y == a.wrapping_add(k),
            t != k,
    ;
}

// ---------------------------------------------------------------------------
// Split reassembly
// ---------------------------------------------------------------------------

/// Reassembly buffer for one fragmented message: one slot per announced
/// chunk.
#[derive(Debug)]
pub struct IncompleteSplit {
    pub chunks: Vec<Option<Vec<u8>>>,
}

/// Concatenation of the present chunks, in index order.
pub open spec fn concat_chunks(s: Seq<Option<Vec<u8>>>) -> Seq<u8>
    decreases s.len(),
{
    if s.len() == 0 {
        Seq::<u8>::empty()
    } else {
        (match s[0] {
            Some(c) => c@,
            None => Seq::<u8>::empty(),
        }) + concat_chunks(s.drop_first())
    }
}

pub open spec fn all_chunks_present(s: Seq<Option<Vec<u8>>>) -> bool {
    forall|k: int| 0 <= k < s.len() ==> (#[trigger] s[k]) is Some
}

proof fn lemma_concat_chunks_snoc(s: Seq<Option<Vec<u8>>>, c: Option<Vec<u8>>)
    ensures
        concat_chunks(s.push(c)) == concat_chunks(s) + (match c {
            Some(v) => v@,
            None => Seq::<u8>::empty(),
        }),
    decreases s.len(),
{
    let tail = (match c {
        Some(v) => v@,
        None => Seq::<u8>::empty(),
    });
    if s.len() == 0 {
        assert(s.push(c)[0] == c);
        assert(s.push(c).drop_first() =~= Seq::<Option<Vec<u8>>>::empty());
        assert(concat_chunks(s.push(c)) == tail + concat_chunks(
            Seq::<Option<Vec<u8>>>::empty(),
        ));
        assert(tail + Seq::<u8>::empty() =~= Seq::<u8>::empty() + tail);
    } else {
        assert(s.push(c)[0] == s[0]);
        assert(s.push(c).drop_first() =~= s.drop_first().push(c));
        lemma_concat_chunks_snoc(s.drop_first(), c);
        let head = (match s[0] {
            Some(v) => v@,
            None => Seq::<u8>::empty(),
        });
        assert(concat_chunks(s.push(c)) == head + (concat_chunks(s.drop_first()) + tail));
        assert(head + (concat_chunks(s.drop_first()) + tail) =~= (head + concat_chunks(
            s.drop_first(),
        )) + tail);
    }
}

impl IncompleteSplit {
    /// A fresh buffer with `chunk_count` empty slots.
    pub fn new(chunk_count: u16) -> (r: IncompleteSplit)
        ensures
            r.chunks@.len() == chunk_count,
            forall|k: int| 0 <= k < chunk_count ==> (#[trigger] r.chunks@[k]) is None,
    {
        let mut chunks: Vec<Option<Vec<u8>>> = Vec::new();
        let mut k: u16 = 0;
        while k < chunk_count
            invariant
                k <= chunk_count,
                chunks@.len() == k,
                forall|t: int| 0 <= t < k ==> (#[trigger] chunks@[t]) is None,
            decreases chunk_count - k,
        {
            chunks.push(None);
            k = k + 1;
        }
        IncompleteSplit { chunks }
    }

    /// Stores one chunk; rejects an index outside the announced count and a
    /// chunk that already arrived, leaving the buffer unchanged.
    pub fn add_chunk(&mut self, chunk_number: u16, chunk: Vec<u8>) -> (r: Result<
        (),
        TransportError,
    >)
        ensures
            r is Ok <==> ((chunk_number as int) < old(self).chunks@.len() && old(
                self,
            ).chunks@[chunk_number as int] is None),
            match r {
                Ok(()) => {
                    &&& (chunk_number as int) < old(self).chunks@.len()
                    &&& old(self).chunks@[chunk_number as int] is None
                    &&& final(self).chunks@ == old(self).chunks@.update(
                        chunk_number as int,
                        Some(chunk),
                    )
                },
                Err(e) => {
                    let was_in_range = (chunk_number as int) < old(self).chunks@.len();
                    &&& *final(self) == *old(self)
                    &&& (e == TransportError::SplitChunkRange <==> !was_in_range)
                    &&& (e == TransportError::SplitChunkDuplicate <==> (was_in_range && old(
                        self,
                    ).chunks@[chunk_number as int] is Some))
                },
            },
    {
        let idx = chunk_number as usize;
        if idx >= self.chunks.len() {
            return Err(TransportError::SplitChunkRange);
        }
        let occupied = match &self.chunks[idx] {
            Some(_) => true,
            None => false,
        };
        if occupied {
            return Err(TransportError::SplitChunkDuplicate);
        }
        self.chunks.set(idx, Some(chunk));
        Ok(())
    }

    /// The assembled message, exactly when every chunk is present; a
    /// partial buffer never yields one.
    pub fn try_complete(&self) -> (r: Option<Vec<u8>>)
        ensures
            r is Some <==> all_chunks_present(self.chunks@),
            r is Some ==> r.unwrap()@ == concat_chunks(self.chunks@),
    {
        let n = self.chunks.len();
        let mut data: Vec<u8> = Vec::new();
        let mut k: usize = 0;
        proof {
            assert(self.chunks@.subrange(0, 0) =~= Seq::<Option<Vec<u8>>>::empty());
        }
        while k < n
            invariant
                n == self.chunks@.len(),
                k <= n,
                data@ == concat_chunks(self.chunks@.subrange(0, k as int)),
                forall|t: int| 0 <= t < k ==> (#[trigger] self.chunks@[t]) is Some,
            decreases n - k,
        {
            match &self.chunks[k] {
                Some(c) => {
                    crate::codec::write_raw(&mut data, c);
                },
                None => {
                    return None;
                },
            }
            proof {
                let pre = self.chunks@.subrange(0, k as int);
                lemma_concat_chunks_snoc(pre, self.chunks@[k as int]);
                assert(pre.push(self.chunks@[k as int]) =~= self.chunks@.subrange(
                    0,
                    k as int + 1,
                ));
            }
            k = k + 1;
        }
        proof {
            assert(self.chunks@.subrange(0, n as int) =~= self.chunks@);
        }
        Some(data)
    }
}

// ---------------------------------------------------------------------------
// The transport state
// ---------------------------------------------------------------------------

/// One reliable frame awaiting its Ack: the datagram is kept byte for byte
/// for retransmission.
#[derive(Debug)]
pub struct UnackedFrame {
    pub channel: u8,
    pub seqnum: u16,
    pub bytes: Vec<u8>,
    pub last_sent_ms: u64,
    pub rto_ms: u64,
    pub attempts: u8,
}

/// One split stream under reassembly, keyed by channel and split seqnum.
#[derive(Debug)]
pub struct SplitEntry {
    pub channel: u8,
    pub seqnum: u16,
    pub chunk_count: u16,
    pub buf: IncompleteSplit,
}

/// One out-of-order reliable body, parked until its predecessors arrive.
#[derive(Debug)]
pub struct ReorderEntry {
    pub channel: u8,
    pub seqnum: u16,
    pub ty: PacketType,
    pub body: Vec<u8>,
}

/// What processing one datagram produced.
pub enum TransportEvent {
    /// A complete message payload, delivered in order.
    Payload(Vec<u8>),
    /// The server asked for disconnection.
    Disconnected,
}

/// The datagrams to send (the Ack first, before anything else happens) and
/// the events for the session.
pub struct Inbound {
    pub acks: Vec<Vec<u8>>,
    pub events: Vec<TransportEvent>,
}

/// Client-side transport state for one session.
pub struct Transport {
    pub peer_id: u16,
    pub seqnums: Vec<u16>,
    pub split_seqnums: Vec<u16>,
    pub inbound_next: Vec<u16>,
    pub unacked: Vec<UnackedFrame>,
    pub splits: Vec<SplitEntry>,
    pub reorder: Vec<ReorderEntry>,
}

/// No two live unacked entries share a channel and seqnum.
pub open spec fn unacked_unique(s: Seq<UnackedFrame>) -> bool {
    forall|i: int, j: int|
        0 <= i < j < s.len() ==> !((#[trigger] s[i]).channel == (#[trigger] s[j]).channel
            && s[i].seqnum == s[j].seqnum)
}

/// Every stream's buffer has exactly its announced number of slots.
pub open spec fn splits_sized(s: Seq<SplitEntry>) -> bool {
    forall|i: int| 0 <= i < s.len() ==> (#[trigger] s[i]).buf.chunks@.len() == s[i].chunk_count
}

/// No split-table error can arise from this chunk: its index is below the
/// announced count, and any stream already under the key agrees on the
/// count and still has the slot empty.
pub open spec fn split_error_free(s: Seq<SplitEntry>, channel: u8, sp: Split) -> bool {
    &&& sp.chunk_number < sp.chunk_count
    &&& forall|i: int|
        0 <= i < s.len() && (#[trigger] s[i]).channel == channel && s[i].seqnum == sp.seqnum ==> (
        s[i].chunk_count == sp.chunk_count && s[i].buf.chunks@[sp.chunk_number as int] is None)
}

/// No two split streams share a channel and seqnum.
pub open spec fn splits_unique(s: Seq<SplitEntry>) -> bool {
    forall|i: int, j: int|
        0 <= i < j < s.len() ==> !((#[trigger] s[i]).channel == (#[trigger] s[j]).channel
            && s[i].seqnum == s[j].seqnum)
}

/// No two parked bodies share a channel and seqnum.
pub open spec fn reorder_unique(s: Seq<ReorderEntry>) -> bool {
    forall|i: int, j: int|
        0 <= i < j < s.len() ==> !((#[trigger] s[i]).channel == (#[trigger] s[j]).channel
            && s[i].seqnum == s[j].seqnum)
}

impl Transport {
    /// Well-formedness: three channels and no duplicate keys in any table.
    pub open spec fn wf(&self) -> bool {
        &&& self.seqnums@.len() == 3
        &&& self.split_seqnums@.len() == 3
        &&& self.inbound_next@.len() == 3
        &&& unacked_unique(self.unacked@)
        &&& splits_unique(self.splits@)
        &&& splits_sized(self.splits@)
        &&& reorder_unique(self.reorder@)
    }

    /// A fresh transport: peer id unassigned, every stream at its initial
    /// sequence number, all tables empty.
    pub fn new() -> (r: Transport)
        ensures
            r.wf(),
            r.peer_id == 0,
            forall|c: int| 0 <= c < 3 ==> (#[trigger] r.seqnums@[c]) == INITIAL_SEQNUM,
            forall|c: int| 0 <= c < 3 ==> (#[trigger] r.inbound_next@[c]) == INITIAL_SEQNUM,
            r.unacked@.len() == 0,
            r.splits@.len() == 0,
            r.reorder@.len() == 0,
    {
        let mut seqnums: Vec<u16> = Vec::new();
        seqnums.push(INITIAL_SEQNUM);
        seqnums.push(INITIAL_SEQNUM);
        seqnums.push(INITIAL_SEQNUM);
        let mut split_seqnums: Vec<u16> = Vec::new();
        split_seqnums.push(0);
        split_seqnums.push(0);
        split_seqnums.push(0);
        let mut inbound_next: Vec<u16> = Vec::new();
        inbound_next.push(INITIAL_SEQNUM);
        inbound_next.push(INITIAL_SEQNUM);
        inbound_next.push(INITIAL_SEQNUM);
        Transport {
            peer_id: 0,
            seqnums,
            split_seqnums,
            inbound_next,
            unacked: Vec::new(),
            splits: Vec::new(),
            reorder: Vec::new(),
        }
    }

    /// Allocates the next outbound reliable seqnum on `channel`: returns
    /// the current counter and advances it by one modulo 2^16, so
    /// consecutive allocations are strictly increasing in the circular
    /// order.
    pub fn next_seqnum(&mut self, channel: u8) -> (r: u16)
        requires
            old(self).wf(),
            channel < CHANNEL_COUNT,
        ensures
            final(self).wf(),
            r == old(self).seqnums@[channel as int],
            final(self).seqnums@ == old(self).seqnums@.update(
                channel as int,
                seq_next(r),
            ),
            seq_before(r, final(self).seqnums@[channel as int]),
            final(self).peer_id == old(self).peer_id,
            final(self).split_seqnums@ == old(self).split_seqnums@,
            final(self).inbound_next@ == old(self).inbound_next@,
            final(self).unacked@ == old(self).unacked@,
            final(self).splits@ == old(self).splits@,
            final(self).reorder@ == old(self).reorder@,
    {
        let c = channel as usize;
        let r = self.seqnums[c];
        self.seqnums.set(c, r.wrapping_add(1));
        proof {
            assert(r.wrapping_add(1) == seq_next(r)) by (bit_vector);
            lemma_seq_strictly_increasing(r);
        }
        r
    }
}

/// A datagram-parse or transport failure while receiving.
#[derive(Debug, Clone, Copy, PartialEq, Eq, Structural)]
pub enum RecvError {
    Protocol(ProtocolError),
    Transport(TransportError),
    /// The frame names a channel outside 0..2.
    BadChannel,
}

pub open spec fn has_unacked_key(s: Seq<UnackedFrame>, channel: u8, seqnum: u16) -> bool {
    exists|i: int|
        0 <= i < s.len() && (#[trigger] s[i]).channel == channel && s[i].seqnum == seqnum
}

pub open spec fn has_split_key(s: Seq<SplitEntry>, channel: u8, seqnum: u16) -> bool {
    exists|i: int|
        0 <= i < s.len() && (#[trigger] s[i]).channel == channel && s[i].seqnum == seqnum
}

pub open spec fn has_reorder_key(s: Seq<ReorderEntry>, channel: u8, seqnum: u16) -> bool {
    exists|i: int|
        0 <= i < s.len() && (#[trigger] s[i]).channel == channel && s[i].seqnum == seqnum
}

/// An unacked entry is due for retransmission once its timeout elapsed.
pub open spec fn due_for_resend(e: UnackedFrame, now_ms: u64) -> bool {
    e.last_sent_ms + e.rto_ms <= now_ms
}

/// The seqnum `k` allocations after `a`, in the 16-bit circular order.
pub open spec fn seq_add(a: u16, k: u16) -> u16 {
    ((a + k) % 0x10000int) as u16
}

/// Number of Split chunks for a fragmented payload.
pub open spec fn split_chunk_count(len: nat) -> nat {
    (len + SPLIT_THRESHOLD - 1) as nat / (SPLIT_THRESHOLD as nat)
}

/// The bytes of Split chunk `k`: at most `SPLIT_THRESHOLD` each, in order.
pub open spec fn split_chunk(p: Seq<u8>, k: int) -> Seq<u8> {
    p.subrange(
        k * SPLIT_THRESHOLD,
        if (k + 1) * SPLIT_THRESHOLD <= p.len() {
            (k + 1) * SPLIT_THRESHOLD
        } else {
            p.len() as int
        },
    )
}

/// A copy of `v[start..end]`.
pub fn copy_range(v: &Vec<u8>, start: usize, end: usize) -> (r: Vec<u8>)
    requires
        start <= end <= v@.len(),
    ensures
        r@ == v@.subrange(start as int, end as int),
{
    let mut out: Vec<u8> = Vec::new();
    let mut k: usize = start;
    proof {
        assert(out@ =~= v@.subrange(start as int, start as int));
    }
    while k < end
        invariant
            start <= k <= end <= v@.len(),
            out@ == v@.subrange(start as int, k as int),
        decreases end - k,
    {
        out.push(v[k]);
        proof {
            assert(out@ =~= v@.subrange(start as int, k as int + 1));
        }
        k = k + 1;
    }
    out
}

/// Pushing an entry whose key is absent keeps the reorder buffer's keys
/// unique.
proof fn lemma_reorder_push(pre: Seq<ReorderEntry>, e: ReorderEntry, post: Seq<ReorderEntry>)
    requires
        reorder_unique(pre),
        !has_reorder_key(pre, e.channel, e.seqnum),
        post == pre.push(e),
    ensures
        reorder_unique(post),
        has_reorder_key(post, e.channel, e.seqnum),
{
    assert forall|a: int, b: int|
        0 <= a < b < post.len() implies !((#[trigger] post[a]).channel == (#[trigger] post[
    b]).channel && post[a].seqnum == post[b].seqnum) by {
        if b == post.len() - 1 {
            assert(post[a] == pre[a]);
        } else {
            assert(post[a] == pre[a]);
            assert(post[b] == pre[b]);
        }
    }
    assert(post[post.len() - 1].channel == e.channel && post[post.len() - 1].seqnum == e.seqnum);
}

/// Pushing an entry whose key is absent keeps the table's keys unique and
/// its buffers sized.
proof fn lemma_splits_push(pre: Seq<SplitEntry>, e: SplitEntry, post: Seq<SplitEntry>)
    requires
        splits_unique(pre),
        splits_sized(pre),
        e.buf.chunks@.len() == e.chunk_count,
        !has_split_key(pre, e.channel, e.seqnum),
        post == pre.push(e),
    ensures
        splits_unique(post),
        splits_sized(post),
        has_split_key(post, e.channel, e.seqnum),
{
    assert forall|a: int, b: int|
        0 <= a < b < post.len() implies !((#[trigger] post[a]).channel == (#[trigger] post[
    b]).channel && post[a].seqnum == post[b].seqnum) by {
        if b == post.len() - 1 {
            assert(post[a] == pre[a]);
        } else {
            assert(post[a] == pre[a]);
            assert(post[b] == pre[b]);
        }
    }
    assert forall|i: int| 0 <= i < post.len() implies (#[trigger] post[i]).buf.chunks@.len()
        == post[i].chunk_count by {
        if i < post.len() - 1 {
            assert(post[i] == pre[i]);
        }
    }
    assert(post[post.len() - 1].channel == e.channel && post[post.len() - 1].seqnum == e.seqnum);
}

/// The views of a list of byte vectors.
pub open spec fn views_of(s: Seq<Vec<u8>>) -> Seq<Seq<u8>> {
    Seq::new(s.len(), |i: int| s[i]@)
}

/// The bytes of the due entries of the table, in table order.
pub open spec fn due_bytes(s: Seq<UnackedFrame>, now_ms: u64) -> Seq<Seq<u8>>
    decreases s.len(),
{
    if s.len() == 0 {
        Seq::<Seq<u8>>::empty()
    } else {
        (if due_for_resend(s[0], now_ms) {
            seq![s[0].bytes@]
        } else {
            Seq::<Seq<u8>>::empty()
        }) + due_bytes(s.drop_first(), now_ms)
    }
}

proof fn lemma_due_bytes_snoc(s: Seq<UnackedFrame>, i: int, now_ms: u64)
    requires
        0 <= i < s.len(),
    ensures
        due_bytes(s.take(i + 1), now_ms) == due_bytes(s.take(i), now_ms) + (if due_for_resend(
            s[i],
            now_ms,
        ) {
            seq![s[i].bytes@]
        } else {
            Seq::<Seq<u8>>::empty()
        }),
    decreases i,
{
    let tail = (if due_for_resend(s[i], now_ms) {
        seq![s[i].bytes@]
    } else {
        Seq::<Seq<u8>>::empty()
    });
    if i == 0 {
        assert(s.take(0) =~= Seq::<UnackedFrame>::empty());
        assert(s.take(1)[0] == s[0]);
        assert(s.take(1).drop_first() =~= Seq::<UnackedFrame>::empty());
        assert(due_bytes(s.take(1), now_ms) == tail + due_bytes(
            Seq::<UnackedFrame>::empty(),
            now_ms,
        ));
        assert(tail + Seq::<Seq<u8>>::empty() =~= Seq::<Seq<u8>>::empty() + tail);
    } else {
        let head = (if due_for_resend(s[0], now_ms) {
            seq![s[0].bytes@]
        } else {
            Seq::<Seq<u8>>::empty()
        });
        assert(s.take(i + 1)[0] == s[0]);
        assert(s.take(i + 1).drop_first() =~= s.drop_first().take(i));
        assert(s.take(i)[0] == s[0]);
        assert(s.take(i).drop_first() =~= s.drop_first().take(i - 1));
        lemma_due_bytes_snoc(s.drop_first(), i - 1, now_ms);
        assert(s.drop_first()[i - 1] == s[i]);
        assert(due_bytes(s.take(i + 1), now_ms) == head + (due_bytes(
            s.drop_first().take(i - 1),
            now_ms,
        ) + tail));
        assert(head + (due_bytes(s.drop_first().take(i - 1), now_ms) + tail) =~= (head
            + due_bytes(s.drop_first().take(i - 1), now_ms)) + tail);
    }
}

/// An exact byte copy.
pub fn copy_bytes(v: &Vec<u8>) -> (r: Vec<u8>)
    ensures
        r@ == v@,
{
    let mut out: Vec<u8> = Vec::new();
    crate::codec::write_raw(&mut out, v);
    proof {
        assert(out@ =~= v@);
    }
    out
}

/// The header of an Ack frame.
pub open spec fn ack_header(peer_id: u16, channel: u8, seqnum: u16) -> PacketHeader {
    PacketHeader {
        peer_id,
        channel,
        reliability: Reliability::Unreliable,
        ty: PacketType::Control(Control::Ack { seqnum }),
    }
}

impl Transport {
    fn find_unacked(&self, channel: u8, seqnum: u16) -> (r: Option<usize>)
        ensures
            match r {
                Some(i) => (i as int) < self.unacked@.len() && self.unacked@[i as int].channel
                    == channel && self.unacked@[i as int].seqnum == seqnum,
                None => !has_unacked_key(self.unacked@, channel, seqnum),
            },
    {
        let n = self.unacked.len();
        let mut k: usize = 0;
        while k < n
            invariant
                n == self.unacked@.len(),
                k <= n,
                forall|t: int|
                    0 <= t < k ==> !((#[trigger] self.unacked@[t]).channel == channel
                        && self.unacked@[t].seqnum == seqnum),
            decreases n - k,
        {
            if self.unacked[k].channel == channel && self.unacked[k].seqnum == seqnum {
                return Some(k);
            }
            k = k + 1;
        }
        None
    }

    fn find_split(&self, channel: u8, seqnum: u16) -> (r: Option<usize>)
        ensures
            match r {
                Some(i) => (i as int) < self.splits@.len() && self.splits@[i as int].channel
                    == channel && self.splits@[i as int].seqnum == seqnum,
                None => !has_split_key(self.splits@, channel, seqnum),
            },
    {
        let n = self.splits.len();
        let mut k: usize = 0;
        while k < n
            invariant
                n == self.splits@.len(),
                k <= n,
                forall|t: int|
                    0 <= t < k ==> !((#[trigger] self.splits@[t]).channel == channel
                        && self.splits@[t].seqnum == seqnum),
            decreases n - k,
        {
            if self.splits[k].channel == channel && self.splits[k].seqnum == seqnum {
                return Some(k);
            }
            k = k + 1;
        }
        None
    }

    fn find_reorder(&self, channel: u8, seqnum: u16) -> (r: Option<usize>)
        ensures
            match r {
                Some(i) => (i as int) < self.reorder@.len() && self.reorder@[i as int].channel
                    == channel && self.reorder@[i as int].seqnum == seqnum,
                None => !has_reorder_key(self.reorder@, channel, seqnum),
            },
    {
        let n = self.reorder.len();
        let mut k: usize = 0;
        while k < n
            invariant
                n == self.reorder@.len(),
                k <= n,
                forall|t: int|
                    0 <= t < k ==> !((#[trigger] self.reorder@[t]).channel == channel
                        && self.reorder@[t].seqnum == seqnum),
            decreases n - k,
        {
            if self.reorder[k].channel == channel && self.reorder[k].seqnum == seqnum {
                return Some(k);
            }
            k = k + 1;
        }
        None
    }

    /// Records a reliable frame as awaiting its Ack. A stale entry under
    /// the same key (a reused seqnum) is dropped first, so the table never
    /// holds two live entries for one frame key.
    fn unacked_insert(&mut self, entry: UnackedFrame)
        requires
            old(self).wf(),
        ensures
            final(self).wf(),
            has_unacked_key(final(self).unacked@, entry.channel, entry.seqnum),
            final(self).unacked@[final(self).unacked@.len() - 1] == entry,
            forall|c2: u8, s2: u16|
                !(c2 == entry.channel && s2 == entry.seqnum) ==> (#[trigger] has_unacked_key(
                    final(self).unacked@,
                    c2,
                    s2,
                ) == has_unacked_key(old(self).unacked@, c2, s2)),
            final(self).peer_id == old(self).peer_id,
            final(self).seqnums@ == old(self).seqnums@,
            final(self).split_seqnums@ == old(self).split_seqnums@,
            final(self).inbound_next@ == old(self).inbound_next@,
            final(self).splits@ == old(self).splits@,
            final(self).reorder@ == old(self).reorder@,
    {
        match self.find_unacked(entry.channel, entry.seqnum) {
            Some(i) => {
                self.unacked.remove(i);
                proof {
                    assert forall|a: int, b: int|
                        0 <= a < b < self.unacked@.len() implies !((#[trigger] self.unacked@[
                        a]).channel == (#[trigger] self.unacked@[b]).channel
                        && self.unacked@[a].seqnum == self.unacked@[b].seqnum) by {
                        let oa = if a < i { a } else { a + 1 };
                        let ob = if b < i { b } else { b + 1 };
                        assert(self.unacked@[a] == old(self).unacked@[oa]);
                        assert(self.unacked@[b] == old(self).unacked@[ob]);
                    }
                }
            },
            None => {},
        }
        proof {
            assert forall|t: int| 0 <= t < self.unacked@.len() implies !((#[trigger] self.unacked@[
            t]).channel == entry.channel && self.unacked@[t].seqnum == entry.seqnum) by {
                if has_unacked_key(old(self).unacked@, entry.channel, entry.seqnum) {
                } else {
                }
            }
        }
        self.unacked.push(entry);
        proof {
            let s = self.unacked@;
            assert forall|a: int, b: int|
                0 <= a < b < s.len() implies !((#[trigger] s[a]).channel == (#[trigger] s[
            b]).channel && s[a].seqnum == s[b].seqnum) by {
                if b == s.len() - 1 {
                } else {
                }
            }
            assert(s[s.len() - 1].channel == entry.channel && s[s.len() - 1].seqnum
                == entry.seqnum);
            assert forall|c2: u8, s2: u16|
                !(c2 == entry.channel && s2 == entry.seqnum) implies (#[trigger] has_unacked_key(
                s,
                c2,
                s2,
            ) == has_unacked_key(old(self).unacked@, c2, s2)) by {
                let o = old(self).unacked@;
                if has_unacked_key(o, c2, s2) {
                    let w = choose|w: int| 0 <= w < o.len() && o[w].channel == c2 && o[w].seqnum == s2;
                    if has_unacked_key(o, entry.channel, entry.seqnum) {
                        let i = choose|i: int|
                            0 <= i < o.len() && o[i].channel == entry.channel && o[i].seqnum
                                == entry.seqnum;
                        let w2 = if w < i { w } else { w - 1 };
                        assert(w != i);
                        assert(s[w2].channel == c2 && s[w2].seqnum == s2);
                    } else {
                        assert(s[w].channel == c2 && s[w].seqnum == s2);
                    }
                }
                if has_unacked_key(s, c2, s2) {
                    let w = choose|w: int| 0 <= w < s.len() && s[w].channel == c2 && s[w].seqnum == s2;
                    assert(w != s.len() - 1);
                    if has_unacked_key(o, entry.channel, entry.seqnum) {
                        let i = choose|i: int|
                            0 <= i < o.len() && o[i].channel == entry.channel && o[i].seqnum
                                == entry.seqnum;
                        let w2 = if w < i { w } else { w + 1 };
                        assert(o[w2].channel == c2 && o[w2].seqnum == s2);
                    } else {
                        assert(o[w].channel == c2 && o[w].seqnum == s2);
                    }
                }
            }
        }
    }

    /// Removes the matching entry when its Ack arrives; afterwards no live
    /// entry carries that channel and seqnum.
    pub fn handle_ack(&mut self, channel: u8, seqnum: u16)
        requires
            old(self).wf(),
        ensures
            final(self).wf(),
            !has_unacked_key(final(self).unacked@, channel, seqnum),
            has_unacked_key(old(self).unacked@, channel, seqnum) ==> exists|i: int|
                0 <= i < old(self).unacked@.len() && old(self).unacked@[i].channel == channel
                    && old(self).unacked@[i].seqnum == seqnum && final(self).unacked@ == old(
                    self,
                ).unacked@.remove(i),
            !has_unacked_key(old(self).unacked@, channel, seqnum) ==> final(self).unacked@ == old(
                self,
            ).unacked@,
            final(self).peer_id == old(self).peer_id,
            final(self).seqnums@ == old(self).seqnums@,
            final(self).split_seqnums@ == old(self).split_seqnums@,
            final(self).inbound_next@ == old(self).inbound_next@,
            final(self).splits@ == old(self).splits@,
            final(self).reorder@ == old(self).reorder@,
    {
        match self.find_unacked(channel, seqnum) {
            Some(i) => {
                self.unacked.remove(i);
                proof {
                    let s = self.unacked@;
                    let o = old(self).unacked@;
                    assert forall|a: int, b: int|
                        0 <= a < b < s.len() implies !((#[trigger] s[a]).channel == (#[trigger] s[
                    b]).channel && s[a].seqnum == s[b].seqnum) by {
                        let oa = if a < i { a } else { a + 1 };
                        let ob = if b < i { b } else { b + 1 };
                        assert(s[a] == o[oa]);
                        assert(s[b] == o[ob]);
                    }
                    assert forall|t: int| 0 <= t < s.len() implies !((#[trigger] s[t]).channel
                        == channel && s[t].seqnum == seqnum) by {
                        let ot = if t < i { t } else { t + 1 };
                        assert(s[t] == o[ot]);
                    }
                }
            },
            None => {},
        }
    }

    /// Builds the datagrams for one outbound payload. A payload of up to
    /// `SPLIT_THRESHOLD` bytes becomes exactly one Original frame; a longer
    /// one becomes `split_chunk_count` Split frames sharing one split
    /// seqnum, in chunk-index order, whose chunks concatenate back to the
    /// payload. Reliable frames allocate consecutive seqnums and are
    /// retained for retransmission.
    pub fn send_payload(
        &mut self,
        payload: &Vec<u8>,
        reliable: bool,
        channel: u8,
        now_ms: u64,
    ) -> (r: Result<Vec<Vec<u8>>, TransportError>)
        requires
            old(self).wf(),
            channel < CHANNEL_COUNT,
        ensures
            final(self).wf(),
            final(self).peer_id == old(self).peer_id,
            final(self).inbound_next@ == old(self).inbound_next@,
            final(self).splits@ == old(self).splits@,
            final(self).reorder@ == old(self).reorder@,
            !reliable ==> final(self).seqnums@ == old(self).seqnums@ && final(self).unacked@
                == old(self).unacked@,
            match r {
                Ok(frames) => {
                    &&& (reliable ==> final(self).seqnums@ == old(self).seqnums@.update(
                        channel as int,
                        seq_add(
                            old(self).seqnums@[channel as int],
                            (if payload@.len() <= SPLIT_THRESHOLD {
                                1nat
                            } else {
                                split_chunk_count(payload@.len())
                            }) as u16,
                        ),
                    ))
                    &&& (payload@.len() <= SPLIT_THRESHOLD ==> final(self).split_seqnums@ == old(
                        self,
                    ).split_seqnums@)
                    &&& (payload@.len() > SPLIT_THRESHOLD ==> final(self).split_seqnums@ == old(
                        self,
                    ).split_seqnums@.update(
                        channel as int,
                        seq_next(old(self).split_seqnums@[channel as int]),
                    ))
                    &&& (reliable ==> forall|k: int|
                        0 <= k < frames@.len() ==> #[trigger] has_unacked_key(
                            final(self).unacked@,
                            channel,
                            seq_add(old(self).seqnums@[channel as int], k as u16),
                        ))
                    &&& (payload@.len() <= SPLIT_THRESHOLD ==> {
                        &&& frames@.len() == 1
                        &&& frames@[0]@ == enc_frame(
                            PacketHeader {
                                peer_id: old(self).peer_id,
                                channel,
                                reliability: (if reliable {
                                    Reliability::Reliable {
                                        seqnum: old(self).seqnums@[channel as int],
                                    }
                                } else {
                                    Reliability::Unreliable
                                }),
                                ty: PacketType::Original,
                            },
                            payload@,
                        )
                        &&& (reliable ==> has_unacked_key(
                            final(self).unacked@,
                            channel,
                            old(self).seqnums@[channel as int],
                        ) && final(self).unacked@[final(self).unacked@.len() - 1].bytes@
                            == frames@[0]@)
                        &&& (!reliable ==> final(self).unacked@ == old(self).unacked@)
                    })
                    &&& (payload@.len() > SPLIT_THRESHOLD ==> {
                        &&& frames@.len() == split_chunk_count(payload@.len())
                        &&& forall|k: int|
                            0 <= k < frames@.len() ==> (#[trigger] frames@[k])@ == enc_frame(
                                PacketHeader {
                                    peer_id: old(self).peer_id,
                                    channel,
                                    reliability: (if reliable {
                                        Reliability::Reliable {
                                            seqnum: seq_add(
                                                old(self).seqnums@[channel as int],
                                                k as u16,
                                            ),
                                        }
                                    } else {
                                        Reliability::Unreliable
                                    }),
                                    ty: PacketType::Split(
                                        Split {
                                            seqnum: old(self).split_seqnums@[channel as int],
                                            chunk_count: split_chunk_count(
                                                payload@.len(),
                                            ) as u16,
                                            chunk_number: k as u16,
                                        },
                                    ),
                                },
                                split_chunk(payload@, k),
                            )
                    })
                },
                Err(e) => {
                    &&& e == TransportError::PayloadTooLarge
                    &&& payload@.len() > SPLIT_THRESHOLD * 0xFFFF
                    &&& *final(self) == *old(self)
                },
            },
    {
        let len = payload.len();
        if len <= SPLIT_THRESHOLD {
            let (reliability, rel_seq) = if reliable {
                let s = self.next_seqnum(channel);
                (Reliability::Reliable { seqnum: s }, s)
            } else {
                (Reliability::Unreliable, 0u16)
            };
            let h = PacketHeader {
                peer_id: self.peer_id,
                channel,
                reliability,
                ty: PacketType::Original,
            };
            let frame = encode_frame(&h, payload);
            if reliable {
                self.unacked_insert(
                    UnackedFrame {
                        channel,
                        seqnum: rel_seq,
                        bytes: copy_bytes(&frame),
                        last_sent_ms: now_ms,
                        rto_ms: RTO_INITIAL_MS,
                        attempts: 1,
                    },
                );
            }
            proof {
                lemma_seq_add_step(old(self).seqnums@[channel as int], 0);
            }
            let mut frames: Vec<Vec<u8>> = Vec::new();
            frames.push(frame);
            Ok(frames)
        } else {
            if len > SPLIT_THRESHOLD * 0xFFFF {
                return Err(TransportError::PayloadTooLarge);
            }
            let count = (len + SPLIT_THRESHOLD - 1) / SPLIT_THRESHOLD;
            let c = channel as usize;
            let split_seq = self.split_seqnums[c];
            self.split_seqnums.set(c, split_seq.wrapping_add(1));
            let ghost s0 = old(self).seqnums@[channel as int];
            let mut frames: Vec<Vec<u8>> = Vec::new();
            let mut k: usize = 0;
            proof {
                lemma_seq_add_step(s0, 0);
                assert(old(self).seqnums@.update(channel as int, seq_add(s0, 0u16)) =~= old(
                    self,
                ).seqnums@);
            }
            while k < count
                invariant
                    old(self).wf(),
                    self.wf(),
                    channel < CHANNEL_COUNT,
                    count == split_chunk_count(payload@.len()),
                    count <= 0xFFFF,
                    payload@.len() > SPLIT_THRESHOLD,
                    payload@.len() == len,
                    count * SPLIT_THRESHOLD < len + SPLIT_THRESHOLD,
                    len <= count * SPLIT_THRESHOLD,
                    k <= count,
                    s0 == old(self).seqnums@[channel as int],
                    self.peer_id == old(self).peer_id,
                    self.inbound_next@ == old(self).inbound_next@,
                    self.splits@ == old(self).splits@,
                    self.reorder@ == old(self).reorder@,
                    self.split_seqnums@ == old(self).split_seqnums@.update(
                        channel as int,
                        seq_next(split_seq),
                    ),
                    split_seq == old(self).split_seqnums@[channel as int],
                    reliable ==> self.seqnums@ == old(self).seqnums@.update(
                        channel as int,
                        seq_add(s0, k as u16),
                    ),
                    reliable ==> forall|t: int|
                        0 <= t < k ==> #[trigger] has_unacked_key(
                            self.unacked@,
                            channel,
                            seq_add(s0, t as u16),
                        ),
                    !reliable ==> self.seqnums@ == old(self).seqnums@,
                    !reliable ==> self.unacked@ == old(self).unacked@,
                    frames@.len() == k,
                    forall|t: int|
                        0 <= t < k ==> (#[trigger] frames@[t])@ == enc_frame(
                            PacketHeader {
                                peer_id: old(self).peer_id,
                                channel,
                                reliability: (if reliable {
                                    Reliability::Reliable { seqnum: seq_add(s0, t as u16) }
                                } else {
                                    Reliability::Unreliable
                                }),
                                ty: PacketType::Split(
                                    Split {
                                        seqnum: split_seq,
                                        chunk_count: count as u16,
                                        chunk_number: t as u16,
                                    },
                                ),
                            },
                            split_chunk(payload@, t),
                        ),
                decreases count - k,
            {
                let start = k * SPLIT_THRESHOLD;
                let end = if len - start < SPLIT_THRESHOLD {
                    len
                } else {
                    start + SPLIT_THRESHOLD
                };
                proof {
                    assert(k * SPLIT_THRESHOLD < count * SPLIT_THRESHOLD) by (nonlinear_arith)
                        requires
                            k < count,
                            SPLIT_THRESHOLD > 0,
                    ;
                    assert((k + 1) * SPLIT_THRESHOLD == k * SPLIT_THRESHOLD + SPLIT_THRESHOLD)
                        by (nonlinear_arith);
                    assert(count * SPLIT_THRESHOLD < len + SPLIT_THRESHOLD ==> k * SPLIT_THRESHOLD
                        < len);
                }
                let chunk = copy_range(payload, start, end);
                let reliability = if reliable {
                    let ghost pre = self.seqnums@;
                    let s = self.next_seqnum(channel);
                    proof {
                        lemma_seq_add_step(s0, k as u16);
                        assert(pre[channel as int] == seq_add(s0, k as u16));
                        assert(pre.update(channel as int, seq_next(seq_add(s0, k as u16))) =~= old(
                            self,
                        ).seqnums@.update(channel as int, seq_add(s0, (k + 1) as u16)));
                    }
                    Reliability::Reliable { seqnum: s }
                } else {
                    Reliability::Unreliable
                };
                let h = PacketHeader {
                    peer_id: self.peer_id,
                    channel,
                    reliability,
                    ty: PacketType::Split(
                        Split {
                            seqnum: split_seq,
                            chunk_count: count as u16,
                            chunk_number: k as u16,
                        },
                    ),
                };
                let frame = encode_frame(&h, &chunk);
                if reliable {
                    let retained = copy_bytes(&frame);
                    let seqnum = match &h.reliability {
                        Reliability::Reliable { seqnum } => *seqnum,
                        Reliability::Unreliable => 0,
                    };
                    self.unacked_insert(
                        UnackedFrame {
                            channel,
                            seqnum,
                            bytes: retained,
                            last_sent_ms: now_ms,
                            rto_ms: RTO_INITIAL_MS,
                            attempts: 1,
                        },
                    );
                    proof {
                        assert forall|t: int|
                            0 <= t < k + 1 implies #[trigger] has_unacked_key(
                            self.unacked@,
                            channel,
                            seq_add(s0, t as u16),
                        ) by {
                            if t < k as int {
                                lemma_seq_add_injective(s0, t as u16, k as u16);
                            }
                        }
                    }
                }
                frames.push(frame);
                k = k + 1;
            }
            Ok(frames)
        }
    }

    /// Returns byte-identical copies of every unacked frame whose timeout
    /// elapsed, in table order, doubling each one's backoff (up to the
    /// cap); fails with `PeerUnresponsive` once such a frame has used up
    /// its send attempts.
    pub fn retransmit_due(&mut self, now_ms: u64) -> (r: Result<Vec<Vec<u8>>, TransportError>)
        requires
            old(self).wf(),
        ensures
            final(self).wf(),
            final(self).peer_id == old(self).peer_id,
            final(self).seqnums@ == old(self).seqnums@,
            final(self).split_seqnums@ == old(self).split_seqnums@,
            final(self).inbound_next@ == old(self).inbound_next@,
            final(self).splits@ == old(self).splits@,
            final(self).reorder@ == old(self).reorder@,
            final(self).unacked@.len() == old(self).unacked@.len(),
            forall|i: int|
                0 <= i < old(self).unacked@.len() ==> {
                    &&& (#[trigger] final(self).unacked@[i]).channel == old(self).unacked@[
                        i].channel
                    &&& final(self).unacked@[i].seqnum == old(self).unacked@[i].seqnum
                    &&& final(self).unacked@[i].bytes@ == old(self).unacked@[i].bytes@
                },
            match r {
                Ok(out) => views_of(out@) == due_bytes(old(self).unacked@, now_ms),
                Err(e) => {
                    &&& e == TransportError::PeerUnresponsive
                    &&& exists|i: int|
                        0 <= i < old(self).unacked@.len() && due_for_resend(
                            #[trigger] old(self).unacked@[i],
                            now_ms,
                        ) && old(self).unacked@[i].attempts >= MAX_SEND_ATTEMPTS
                },
            },
    {
        let n = self.unacked.len();
        let mut out: Vec<Vec<u8>> = Vec::new();
        let mut i: usize = 0;
        proof {
            assert(old(self).unacked@.take(0) =~= Seq::<UnackedFrame>::empty());
            assert(views_of(out@) =~= Seq::<Seq<u8>>::empty());
        }
        while i < n
            invariant
                old(self).wf(),
                self.wf(),
                n == self.unacked@.len(),
                n == old(self).unacked@.len(),
                i <= n,
                self.peer_id == old(self).peer_id,
                self.seqnums@ == old(self).seqnums@,
                self.split_seqnums@ == old(self).split_seqnums@,
                self.inbound_next@ == old(self).inbound_next@,
                self.splits@ == old(self).splits@,
                self.reorder@ == old(self).reorder@,
                forall|t: int|
                    0 <= t < n ==> {
                        &&& (#[trigger] self.unacked@[t]).channel == old(self).unacked@[t].channel
                        &&& self.unacked@[t].seqnum == old(self).unacked@[t].seqnum
                        &&& self.unacked@[t].bytes@ == old(self).unacked@[t].bytes@
                    },
                forall|t: int| i <= t < n ==> (#[trigger] self.unacked@[t]) == old(self).unacked@[t],
                views_of(out@) == due_bytes(old(self).unacked@.take(i as int), now_ms),
            decreases n - i,
        {
            let due = self.unacked[i].last_sent_ms <= now_ms && now_ms
                - self.unacked[i].last_sent_ms >= self.unacked[i].rto_ms;
            proof {
                lemma_due_bytes_snoc(old(self).unacked@, i as int, now_ms);
                assert(due == due_for_resend(old(self).unacked@[i as int], now_ms));
            }
            if due {
                if self.unacked[i].attempts >= MAX_SEND_ATTEMPTS {
                    return Err(TransportError::PeerUnresponsive);
                }
                let copy = copy_bytes(&self.unacked[i].bytes);
                let retained = copy_bytes(&self.unacked[i].bytes);
                let new_rto = if self.unacked[i].rto_ms >= RTO_CAP_MS / 2 {
                    RTO_CAP_MS
                } else {
                    self.unacked[i].rto_ms * 2
                };
                let replacement = UnackedFrame {
                    channel: self.unacked[i].channel,
                    seqnum: self.unacked[i].seqnum,
                    bytes: retained,
                    last_sent_ms: now_ms,
                    rto_ms: new_rto,
                    attempts: self.unacked[i].attempts + 1,
                };
                let ghost out_before = out@;
                self.unacked.set(i, replacement);
                out.push(copy);
                proof {
                    let s = self.unacked@;
                    assert forall|a: int, b: int|
                        0 <= a < b < s.len() implies !((#[trigger] s[a]).channel == (#[trigger] s[
                    b]).channel && s[a].seqnum == s[b].seqnum) by {
                        assert(s[a].channel == old(self).unacked@[a].channel && s[a].seqnum == old(
                            self,
                        ).unacked@[a].seqnum);
                        assert(s[b].channel == old(self).unacked@[b].channel && s[b].seqnum == old(
                            self,
                        ).unacked@[b].seqnum);
                    }
                    assert(views_of(out@) =~= views_of(out_before) + seq![
                        old(self).unacked@[i as int].bytes@,
                    ]);
                }
            } else {
                proof {
                    assert(views_of(out@) + Seq::<Seq<u8>>::empty() =~= views_of(out@));
                }
            }
            i = i + 1;
        }
        proof {
            assert(old(self).unacked@.take(n as int) =~= old(self).unacked@);
        }
        Ok(out)
    }

    /// Handles the body of one frame that is ready for delivery (in order
    /// if reliable): control frames update the tables, an Original body is
    /// delivered as one payload, and a Split chunk is parked until its
    /// stream completes, which delivers the reassembled payload exactly
    /// once.
    fn process_body(
        &mut self,
        channel: u8,
        ty: &PacketType,
        body: Vec<u8>,
        events: &mut Vec<TransportEvent>,
    ) -> (r: Result<(), TransportError>)
        requires
            old(self).wf(),
        ensures
            final(self).wf(),
            final(self).seqnums@ == old(self).seqnums@,
            final(self).split_seqnums@ == old(self).split_seqnums@,
            final(self).inbound_next@ == old(self).inbound_next@,
            final(self).reorder@ == old(self).reorder@,
            r is Err ==> ty is Split && final(events)@ == old(events)@ && final(self).peer_id
                == old(self).peer_id && final(self).unacked@ == old(self).unacked@,
            r matches Err(te) ==> (te == TransportError::SplitCollision || te
                == TransportError::SplitChunkRange || te == TransportError::SplitChunkDuplicate),
            match ty {
                PacketType::Control(c) => {
                    &&& r is Ok
                    &&& final(self).splits@ == old(self).splits@
                    &&& match c {
                        Control::Ack { seqnum } => {
                            &&& !has_unacked_key(final(self).unacked@, channel, *seqnum)
                            &&& final(self).peer_id == old(self).peer_id
                            &&& final(events)@ == old(events)@
                        },
                        Control::SetPeerId { peer_id } => {
                            &&& final(self).peer_id == peer_id
                            &&& final(self).unacked@ == old(self).unacked@
                            &&& final(events)@ == old(events)@
                        },
                        Control::Ping => {
                            &&& final(self).peer_id == old(self).peer_id
                            &&& final(self).unacked@ == old(self).unacked@
                            &&& final(events)@ == old(events)@
                        },
                        Control::Disco => {
                            &&& final(self).peer_id == old(self).peer_id
                            &&& final(self).unacked@ == old(self).unacked@
                            &&& final(events)@ == old(events)@.push(
                                TransportEvent::Disconnected,
                            )
                        },
                    }
                },
                PacketType::Original => {
                    &&& r is Ok
                    &&& final(self).peer_id == old(self).peer_id
                    &&& final(self).unacked@ == old(self).unacked@
                    &&& final(self).splits@ == old(self).splits@
                    &&& final(events)@ == old(events)@.push(TransportEvent::Payload(body))
                },
                PacketType::Split(sp) => {
                    &&& (r is Ok <==> split_error_free(old(self).splits@, channel, *sp))
                    &&& r is Ok ==> {
                        &&& final(self).peer_id == old(self).peer_id
                        &&& final(self).unacked@ == old(self).unacked@
                        &&& (final(events)@ == old(events)@ ==> has_split_key(
                            final(self).splits@,
                            channel,
                            sp.seqnum,
                        ))
                        &&& (final(events)@ != old(events)@ ==> final(events)@.len() == old(
                            events,
                        )@.len() + 1 && final(events)@[old(events)@.len() as int] is Payload
                            && !has_split_key(final(self).splits@, channel, sp.seqnum))
                    }
                },
            },
    {
        match ty {
            PacketType::Control(c) => {
                match c {
                    Control::Ack { seqnum } => {
                        self.handle_ack(channel, *seqnum);
                    },
                    Control::SetPeerId { peer_id } => {
                        self.peer_id = *peer_id;
                    },
                    Control::Ping => {},
                    Control::Disco => {
                        events.push(TransportEvent::Disconnected);
                    },
                }
                Ok(())
            },
            PacketType::Original => {
                events.push(TransportEvent::Payload(body));
                Ok(())
            },
            PacketType::Split(sp) => {
                let ghost mut found_idx: Option<int> = None;
                let mut entry = match self.find_split(channel, sp.seqnum) {
                    Some(i) => {
                        let e = self.splits.remove(i);
                        proof {
                            found_idx = Some(i as int);
                            let s = self.splits@;
                            let o = old(self).splits@;
                            assert forall|a: int, b: int|
                                0 <= a < b < s.len() implies !((#[trigger] s[a]).channel == (
                            #[trigger] s[b]).channel && s[a].seqnum == s[b].seqnum) by {
                                let oa = if a < i { a } else { a + 1 };
                                let ob = if b < i { b } else { b + 1 };
                                assert(s[a] == o[oa]);
                                assert(s[b] == o[ob]);
                            }
                            assert forall|t: int|
                                0 <= t < s.len() implies !((#[trigger] s[t]).channel == channel
                                && s[t].seqnum == sp.seqnum) by {
                                let ot = if t < i { t } else { t + 1 };
                                assert(s[t] == o[ot]);
                            }
                            assert forall|t: int| 0 <= t < s.len() implies (#[trigger] s[
                            t]).buf.chunks@.len() == s[t].chunk_count by {
                                let ot = if t < i { t } else { t + 1 };
                                assert(s[t] == o[ot]);
                            }
                        }
                        if e.chunk_count != sp.chunk_count {
                            let ghost pre = self.splits@;
                            self.splits.push(e);
                            proof {
                                lemma_splits_push(pre, e, self.splits@);
                                assert(old(self).splits@[i as int].chunk_count != sp.chunk_count);
                                assert(!split_error_free(old(self).splits@, channel, *sp));
                            }
                            return Err(TransportError::SplitCollision);
                        }
                        e
                    },
                    None => SplitEntry {
                        channel,
                        seqnum: sp.seqnum,
                        chunk_count: sp.chunk_count,
                        buf: IncompleteSplit::new(sp.chunk_count),
                    },
                };
                let ghost entry_before = entry;
                proof {
                    assert(entry_before.chunk_count == sp.chunk_count);
                    assert(entry_before.buf.chunks@.len() == sp.chunk_count);
                    match found_idx {
                        Some(i) => {
                            assert(entry_before == old(self).splits@[i]);
                        },
                        None => {
                            assert(!has_split_key(old(self).splits@, channel, sp.seqnum));
                        },
                    }
                }
                match entry.buf.add_chunk(sp.chunk_number, body) {
                    Ok(()) => {
                        proof {
                            assert forall|j: int|
                                0 <= j < old(self).splits@.len() && (#[trigger] old(self).splits@[
                            j]).channel == channel && old(self).splits@[j].seqnum == sp.seqnum
                                implies (old(self).splits@[j].chunk_count == sp.chunk_count && old(
                                self,
                            ).splits@[j].buf.chunks@[sp.chunk_number as int] is None) by {
                                match found_idx {
                                    Some(i) => {
                                        assert(j == i);
                                        assert(old(self).splits@[j] == entry_before);
                                    },
                                    None => {
                                        assert(false);
                                    },
                                }
                            }
                            assert(split_error_free(old(self).splits@, channel, *sp));
                        }
                    },
                    Err(e) => {
                        proof {
                            if (sp.chunk_number as int) < entry_before.buf.chunks@.len()
                                && entry_before.buf.chunks@[sp.chunk_number as int] is None {
                                assert(false);
                            }
                            if sp.chunk_number < sp.chunk_count {
                                // The slot must already be filled, which only a
                                // stream found in the table can have done.
                                match found_idx {
                                    Some(i) => {
                                        assert(old(self).splits@[
                                            i].buf.chunks@[sp.chunk_number as int] is Some);
                                        assert(!split_error_free(old(self).splits@, channel, *sp));
                                    },
                                    None => {
                                        assert(false);
                                    },
                                }
                            }
                            assert(!split_error_free(old(self).splits@, channel, *sp));
                        }
                        let ghost pre = self.splits@;
                        self.splits.push(entry);
                        proof {
                            lemma_splits_push(pre, entry, self.splits@);
                        }
                        return Err(e);
                    },
                }
                match entry.buf.try_complete() {
                    Some(payload) => {
                        events.push(TransportEvent::Payload(payload));
                    },
                    None => {
                        let ghost pre = self.splits@;
                        self.splits.push(entry);
                        proof {
                            lemma_splits_push(pre, entry, self.splits@);
                        }
                    },
                }
                Ok(())
            },
        }
    }

    /// Processes one received datagram. Exactly one Ack is produced for a
    /// reliable frame (none otherwise), on the same channel with the same
    /// seqnum, and it stands before any delivered event. A reliable frame
    /// older than the next expected seqnum is acknowledged but its body
    /// dropped; a future one is parked until its predecessors arrive; the
    /// expected one is delivered and drains any parked successors in
    /// order.
    pub fn process_datagram(&mut self, data: &Vec<u8>) -> (r: Result<Inbound, RecvError>)
        requires
            old(self).wf(),
        ensures
            final(self).wf(),
            final(self).seqnums@ == old(self).seqnums@,
            final(self).split_seqnums@ == old(self).split_seqnums@,
            match dec_header_s(data@) {
                Err(e) => r == Err::<Inbound, RecvError>(RecvError::Protocol(e)) && *final(self)
                    == *old(self),
                Ok((h, j)) => {
                    let body = data@.subrange(j, data@.len() as int);
                    let ch = h.channel as int;
                    &&& (r == Err::<Inbound, RecvError>(RecvError::BadChannel) <==> (
                    h.reliability is Reliable && h.channel >= CHANNEL_COUNT))
                    &&& (match r {
                        Err(e2) => e2 == RecvError::BadChannel || (e2
                            matches RecvError::Transport(te) && (te
                            == TransportError::SplitCollision || te
                            == TransportError::SplitChunkRange || te
                            == TransportError::SplitChunkDuplicate)),
                        Ok(_) => true,
                    })
                    &&& (h.reliability is Unreliable ==> (r is Ok <==> (match h.ty {
                        PacketType::Split(sp) => split_error_free(old(self).splits@, h.channel, sp),
                        _ => true,
                    })))
                    &&& (match h.reliability {
                        Reliability::Reliable { seqnum } => h.channel < CHANNEL_COUNT ==> {
                            &&& (seq_before(seqnum, old(self).inbound_next@[ch]) ==> r is Ok)
                            &&& (!seq_before(seqnum, old(self).inbound_next@[ch]) && seqnum != old(
                                self,
                            ).inbound_next@[ch] ==> r is Ok)
                            &&& (seqnum == old(self).inbound_next@[ch] && old(
                                self,
                            ).reorder@.len() == 0 ==> (r is Ok <==> (match h.ty {
                                PacketType::Split(sp) => split_error_free(
                                    old(self).splits@,
                                    h.channel,
                                    sp,
                                ),
                                _ => true,
                            })))
                        },
                        Reliability::Unreliable => true,
                    })
                    &&& match r {
                        Err(_) => true,
                        Ok(inb) => {
                            &&& (match h.reliability {
                                Reliability::Reliable { seqnum } => inb.acks@.len() == 1
                                    && inb.acks@[0]@ == enc_frame(
                                    ack_header(final(self).peer_id, h.channel, seqnum),
                                    Seq::<u8>::empty(),
                                ),
                                Reliability::Unreliable => inb.acks@.len() == 0,
                            })
                            &&& (match h.reliability {
                                Reliability::Reliable { seqnum } => {
                                    &&& (seq_before(seqnum, old(self).inbound_next@[ch]) ==> {
                                        &&& inb.events@.len() == 0
                                        &&& final(self).peer_id == old(self).peer_id
                                        &&& final(self).unacked@ == old(self).unacked@
                                        &&& final(self).splits@ == old(self).splits@
                                        &&& final(self).inbound_next@ == old(self).inbound_next@
                                    })
                                    &&& (!seq_before(seqnum, old(self).inbound_next@[ch]) && seqnum
                                        != old(self).inbound_next@[ch] ==> {
                                        &&& inb.events@.len() == 0
                                        &&& has_reorder_key(final(self).reorder@, h.channel, seqnum)
                                        &&& final(self).inbound_next@ == old(self).inbound_next@
                                    })
                                    &&& (seqnum == old(self).inbound_next@[ch] && old(
                                        self,
                                    ).reorder@.len() == 0 ==> {
                                        &&& final(self).inbound_next@ == old(
                                            self,
                                        ).inbound_next@.update(ch, seq_next(seqnum))
                                        &&& (h.ty is Original ==> inb.events@.len() == 1
                                            && inb.events@[0] is Payload
                                            && inb.events@[0]->Payload_0@ == body)
                                        &&& (match h.ty {
                                            PacketType::Control(
                                                Control::SetPeerId { peer_id },
                                            ) => final(self).peer_id == peer_id,
                                            _ => true,
                                        })
                                        &&& (match h.ty {
                                            PacketType::Control(Control::Ack { seqnum: s }) => !has_unacked_key(
                                                final(self).unacked@,
                                                h.channel,
                                                s,
                                            ),
                                            _ => true,
                                        })
                                    })
                                },
                                Reliability::Unreliable => {
                                    &&& final(self).inbound_next@ == old(self).inbound_next@
                                    &&& (h.ty is Original ==> inb.events@.len() == 1
                                        && inb.events@[0] is Payload && inb.events@[0]->Payload_0@
                                        == body)
                                    &&& (match h.ty {
                                        PacketType::Control(
                                            Control::SetPeerId { peer_id },
                                        ) => final(self).peer_id == peer_id,
                                        _ => true,
                                    })
                                    &&& (match h.ty {
                                        PacketType::Control(Control::Ack { seqnum: s }) => !has_unacked_key(
                                            final(self).unacked@,
                                            h.channel,
                                            s,
                                        ),
                                        _ => true,
                                    })
                                    &&& (match h.ty {
                                        PacketType::Control(Control::Disco) => inb.events@.len()
                                            == 1 && inb.events@[0] is Disconnected,
                                        _ => true,
                                    })
                                },
                            })
                        },
                    }
                },
            },
    {
        let (header, body) = match decode_frame(data) {
            Ok(v) => v,
            Err(e) => {
                return Err(RecvError::Protocol(e));
            },
        };
        let mut events: Vec<TransportEvent> = Vec::new();
        match &header.reliability {
            Reliability::Reliable { seqnum } => {
                let seqnum = *seqnum;
                if header.channel >= CHANNEL_COUNT {
                    return Err(RecvError::BadChannel);
                }
                let ch = header.channel as usize;
                let next = self.inbound_next[ch];
                if seqnum_before(seqnum, next) {
                    // Already delivered: ack again below, drop the body.
                } else if seqnum != next {
                    // A successor is missing: park the body.
                    match self.find_reorder(header.channel, seqnum) {
                        Some(i) => {
                            // The same frame is already parked; drop this copy.
                            proof {
                                assert(self.reorder@[i as int].channel == header.channel
                                    && self.reorder@[i as int].seqnum == seqnum);
                            }
                        },
                        None => {
                            let entry = ReorderEntry {
                                channel: header.channel,
                                seqnum,
                                ty: header.ty,
                                body,
                            };
                            let ghost ge = entry;
                            let ghost pre = self.reorder@;
                            self.reorder.push(entry);
                            proof {
                                lemma_reorder_push(pre, ge, self.reorder@);
                            }
                        },
                    }
                } else {
                    // In order: deliver, then drain parked successors.
                    match self.process_body(header.channel, &header.ty, body, &mut events) {
                        Ok(()) => {},
                        Err(e) => {
                            return Err(RecvError::Transport(e));
                        },
                    }
                    let mut next_expected = seqnum.wrapping_add(1);
                    proof {
                        assert(seqnum.wrapping_add(1) == seq_next(seqnum)) by (bit_vector);
                    }
                    self.inbound_next.set(ch, next_expected);
                    let ghost mid_next = self.inbound_next@;
                    let ghost mid_peer = self.peer_id;
                    let ghost mid_unacked = self.unacked@;
                    let ghost mid_events = events@;
                    loop
                        invariant
                            self.wf(),
                            header.channel < CHANNEL_COUNT,
                            ch == header.channel as usize,
                            self.seqnums@ == old(self).seqnums@,
                            self.split_seqnums@ == old(self).split_seqnums@,
                            dec_header_s(data@) matches Ok((h2, _)) && h2 == header,
                            header.reliability matches Reliability::Reliable { seqnum: sq } && sq
                                == old(self).inbound_next@[header.channel as int],
                            old(self).reorder@.len() == 0 ==> {
                                &&& self.reorder@.len() == 0
                                &&& self.inbound_next@ == mid_next
                                &&& self.peer_id == mid_peer
                                &&& self.unacked@ == mid_unacked
                                &&& events@ == mid_events
                            },
                        decreases self.reorder@.len(),
                    {
                        let idx = match self.find_reorder(header.channel, next_expected) {
                            Some(i) => i,
                            None => {
                                break ;
                            },
                        };
                        let ghost pre = self.reorder@;
                        let entry = self.reorder.remove(idx);
                        proof {
                            let s = self.reorder@;
                            assert forall|a: int, b: int|
                                0 <= a < b < s.len() implies !((#[trigger] s[a]).channel == (
                            #[trigger] s[b]).channel && s[a].seqnum == s[b].seqnum) by {
                                let oa = if a < idx { a } else { a + 1 };
                                let ob = if b < idx { b } else { b + 1 };
                                assert(s[a] == pre[oa]);
                                assert(s[b] == pre[ob]);
                            }
                        }
                        match self.process_body(entry.channel, &entry.ty, entry.body, &mut events) {
                            Ok(()) => {},
                            Err(e) => {
                                return Err(RecvError::Transport(e));
                            },
                        }
                        next_expected = next_expected.wrapping_add(1);
                        self.inbound_next.set(ch, next_expected);
                    }
                }
                let ack = self.make_ack(header.channel, seqnum);
                let mut acks: Vec<Vec<u8>> = Vec::new();
                acks.push(ack);
                Ok(Inbound { acks, events })
            },
            Reliability::Unreliable => {
                match self.process_body(header.channel, &header.ty, body, &mut events) {
                    Ok(()) => {},
                    Err(e) => {
                        return Err(RecvError::Transport(e));
                    },
                }
                let acks: Vec<Vec<u8>> = Vec::new();
                Ok(Inbound { acks, events })
            },
        }
    }

    /// One unreliable Disco datagram carrying the current peer id; sending
    /// it is the whole of shutdown, with no confirmation expected.
    pub fn make_disco(&self) -> (r: Vec<u8>)
        ensures
            r@ == enc_frame(
                PacketHeader {
                    peer_id: self.peer_id,
                    channel: 0,
                    reliability: Reliability::Unreliable,
                    ty: PacketType::Control(Control::Disco),
                },
                Seq::<u8>::empty(),
            ),
    {
        let h = PacketHeader {
            peer_id: self.peer_id,
            channel: 0,
            reliability: Reliability::Unreliable,
            ty: PacketType::Control(Control::Disco),
        };
        let body: Vec<u8> = Vec::new();
        encode_frame(&h, &body)
    }

    /// One Ack datagram for a received reliable frame.
    fn make_ack(&self, channel: u8, seqnum: u16) -> (r: Vec<u8>)
        ensures
            r@ == enc_frame(ack_header(self.peer_id, channel, seqnum), Seq::<u8>::empty()),
    {
        let h = PacketHeader {
            peer_id: self.peer_id,
            channel,
            reliability: Reliability::Unreliable,
            ty: PacketType::Control(Control::Ack { seqnum }),
        };
        let body: Vec<u8> = Vec::new();
        encode_frame(&h, &body)
    }
}

} // verus!
