//! The fixed-size payload record of the stream and its binary wire layout:
//! an 8-byte little-endian sequence counter, a header block preserved
//! verbatim when placeholders are synthesized, and the data block.

use vstd::prelude::*;

verus! {

/// Bytes of the sequence counter on the wire (little endian).
pub const COUNTER_SIZE: usize = 8;

/// Bytes of the protocol header block.
pub const HEADER_SIZE: usize = 16;

/// Bytes of the data block.
pub const DATA_SIZE: usize = 1024;

/// Exact size of one wire datagram and of one dumped record.
pub const PAYLOAD_SIZE: usize = COUNTER_SIZE + HEADER_SIZE + DATA_SIZE;

/// A sequence of `n` zero bytes.
pub open spec fn zeros(n: int) -> Seq<u8> {
    Seq::new(n as nat, |i: int| 0u8)
}

/// One logical unit of the stream: a sequence counter, protocol header
/// fields, and a fixed-length data block.
pub struct Payload {
    pub pkt_cnt: u64,
    pub header: Vec<u8>,
    pub data: Vec<u8>,
}

/// The mathematical value of a payload: its counter and the byte contents
/// of its header and data blocks.
pub struct PayloadView {
    pub pkt_cnt: u64,
    pub header: Seq<u8>,
    pub data: Seq<u8>,
}

impl View for Payload {
    type V = PayloadView;

    open spec fn view(&self) -> PayloadView {
        PayloadView { pkt_cnt: self.pkt_cnt, header: self.header@, data: self.data@ }
    }
}

impl PayloadView {
    /// Both blocks have their fixed sizes.
    pub open spec fn wf(self) -> bool {
        self.header.len() == HEADER_SIZE && self.data.len() == DATA_SIZE
    }

    /// The state a buffer is in when it leaves the pool: counter and data
    /// zeroed (the header is not part of the reset policy).
    pub open spec fn is_reset(self) -> bool {
        self.pkt_cnt == 0 && self.data == zeros(DATA_SIZE as int)
    }
}

impl Payload {
    pub open spec fn wf(&self) -> bool {
        self@.wf()
    }

    /// A fresh, fully zeroed payload buffer.
    pub fn new() -> (r: Payload)
        ensures
            r.wf(),
            r@.is_reset(),
            r@.header == zeros(HEADER_SIZE as int),
    {
        Payload { pkt_cnt: 0, header: zero_vec(HEADER_SIZE), data: zero_vec(DATA_SIZE) }
    }

    /// Apply the pool's reset policy: zero the counter and the data block,
    /// leaving the header bytes as they were.
    pub fn reset(&mut self)
        requires
            old(self).wf(),
        ensures
            final(self).wf(),
            final(self)@.is_reset(),
            final(self)@.header == old(self)@.header,
    {
        self.pkt_cnt = 0;
        let mut i: usize = 0;
        while i < DATA_SIZE
            invariant
                self.data@.len() == DATA_SIZE,
                self.header@.len() == HEADER_SIZE,
                i <= DATA_SIZE,
                forall|j: int| 0 <= j < i ==> self.data@[j] == 0u8,
                self.pkt_cnt == 0,
                self.header@ == old(self)@.header,
            decreases DATA_SIZE - i,
        {
            self.data.set(i, 0u8);
            i += 1;
        }
        proof {
            assert(self.data@ =~= zeros(DATA_SIZE as int));
        }
    }

    /// Copy the header fields of `other` into this payload, leaving the
    /// counter and the data block untouched.
    pub fn copy_header(&mut self, other: &Payload)
        requires
            old(self).wf(),
            other.wf(),
        ensures
            final(self).wf(),
            final(self)@.header == other@.header,
            final(self)@.pkt_cnt == old(self)@.pkt_cnt,
            final(self)@.data == old(self)@.data,
    {
        let mut i: usize = 0;
        while i < HEADER_SIZE
            invariant
                self.header@.len() == HEADER_SIZE,
                other.header@.len() == HEADER_SIZE,
                self.data@ == old(self)@.data,
                self.pkt_cnt == old(self)@.pkt_cnt,
                i <= HEADER_SIZE,
                forall|j: int| 0 <= j < i ==> self.header@[j] == other.header@[j],
            decreases HEADER_SIZE - i,
        {
            let b = other.header[i];
            self.header.set(i, b);
            i += 1;
        }
        proof {
            assert(self.header@ =~= other@.header);
        }
    }
    /// Encode this payload exactly in its wire and dump-record layout:
    /// counter (little endian), then header, then data.
    pub fn to_bytes(&self) -> (r: Vec<u8>)
        requires
            self.wf(),
        ensures
            r@.len() == PAYLOAD_SIZE,
            wire_counter(r@) == self.pkt_cnt as nat,
            r@.subrange(COUNTER_SIZE as int, (COUNTER_SIZE + HEADER_SIZE) as int) == self@.header,
            r@.subrange((COUNTER_SIZE + HEADER_SIZE) as int, PAYLOAD_SIZE as int) == self@.data,
    {
        let mut r = u64_le_bytes(self.pkt_cnt);
        let ghost cb = r@;
        let mut i: usize = 0;
        while i < HEADER_SIZE
            invariant
                self.wf(),
                i <= HEADER_SIZE,
                r@ == cb + self@.header.take(i as int),
                cb.len() == COUNTER_SIZE,
            decreases HEADER_SIZE - i,
        {
            let b = self.header[i];
            r.push(b);
            i += 1;
            proof {
                assert(r@ =~= cb + self@.header.take(i as int));
            }
        }
        proof {
            assert(self@.header.take(HEADER_SIZE as int) =~= self@.header);
        }
        let mut i: usize = 0;
        while i < DATA_SIZE
            invariant
                self.wf(),
                i <= DATA_SIZE,
                r@ == cb + self@.header + self@.data.take(i as int),
                cb.len() == COUNTER_SIZE,
            decreases DATA_SIZE - i,
        {
            let b = self.data[i];
            r.push(b);
            i += 1;
            proof {
                assert(r@ =~= cb + self@.header + self@.data.take(i as int));
            }
        }
        proof {
            assert(self@.data.take(DATA_SIZE as int) =~= self@.data);
            assert(r@.subrange(0, COUNTER_SIZE as int) =~= cb);
            assert(r@.subrange(COUNTER_SIZE as int, (COUNTER_SIZE + HEADER_SIZE) as int)
                =~= self@.header);
            assert(r@.subrange((COUNTER_SIZE + HEADER_SIZE) as int, PAYLOAD_SIZE as int)
                =~= self@.data);
        }
        r
    }

    /// Decode one received datagram. Exactly the datagrams of the fixed
    /// payload size are accepted; any other length is malformed.
    pub fn from_bytes(buf: &Vec<u8>) -> (r: Option<Payload>)
        ensures
            r is Some <==> buf@.len() == PAYLOAD_SIZE,
            r matches Some(p) ==> p.wf() && p.pkt_cnt as nat == wire_counter(buf@)
                && p@.header == buf@.subrange(COUNTER_SIZE as int, (COUNTER_SIZE
                + HEADER_SIZE) as int) && p@.data == buf@.subrange((COUNTER_SIZE
                + HEADER_SIZE) as int, PAYLOAD_SIZE as int),
    {
        if buf.len() != PAYLOAD_SIZE {
            return None;
        }
        let pkt_cnt = read_u64_le(buf, 0);
        let mut header: Vec<u8> = Vec::new();
        let mut i: usize = 0;
        while i < HEADER_SIZE
            invariant
                buf@.len() == PAYLOAD_SIZE,
                i <= HEADER_SIZE,
                header@ == buf@.subrange(COUNTER_SIZE as int, COUNTER_SIZE + i as int),
            decreases HEADER_SIZE - i,
        {
            let b = buf[COUNTER_SIZE + i];
            header.push(b);
            i += 1;
            proof {
                assert(header@ =~= buf@.subrange(COUNTER_SIZE as int, COUNTER_SIZE + i as int));
            }
        }
        let mut data: Vec<u8> = Vec::new();
        let mut i: usize = 0;
        while i < DATA_SIZE
            invariant
                buf@.len() == PAYLOAD_SIZE,
                i <= DATA_SIZE,
                data@ == buf@.subrange((COUNTER_SIZE + HEADER_SIZE) as int, COUNTER_SIZE
                    + HEADER_SIZE + i as int),
            decreases DATA_SIZE - i,
        {
            let b = buf[COUNTER_SIZE + HEADER_SIZE + i];
            data.push(b);
            i += 1;
            proof {
                assert(data@ =~= buf@.subrange((COUNTER_SIZE + HEADER_SIZE) as int, COUNTER_SIZE
                    + HEADER_SIZE + i as int));
            }
        }
        Some(Payload { pkt_cnt, header, data })
    }
}

/// The little-endian value of the bytes of `s` from position `i` on: the
/// byte at `i` is the least significant.
pub open spec fn le_value_from(s: Seq<u8>, i: int) -> nat
    decreases s.len() - i,
{
    if i < 0 || i >= s.len() {
        0
    } else {
        s[i] as nat + 256 * le_value_from(s, i + 1)
    }
}

/// The little-endian value of a whole byte sequence.
pub open spec fn le_bytes_value(s: Seq<u8>) -> nat {
    le_value_from(s, 0)
}

/// The counter encoded in a wire datagram: the little-endian value of its
/// first eight bytes.
pub open spec fn wire_counter(s: Seq<u8>) -> nat {
    le_bytes_value(s.subrange(0, COUNTER_SIZE as int))
}

/// Read the eight-byte little-endian counter starting at `off`.
pub fn read_u64_le(buf: &Vec<u8>, off: usize) -> (r: u64)
    requires
        off + 8 <= buf@.len(),
    ensures
        r as nat == le_bytes_value(buf@.subrange(off as int, off as int + 8)),
{
    let n = buf.len();
    let b0 = buf[off] as u64;
    let b1 = buf[off + 1] as u64;
    let b2 = buf[off + 2] as u64;
    let b3 = buf[off + 3] as u64;
    let b4 = buf[off + 4] as u64;
    let b5 = buf[off + 5] as u64;
    let b6 = buf[off + 6] as u64;
    let b7 = buf[off + 7] as u64;
    let r: u64 = b0 + b1 * 256 + b2 * 65536 + b3 * 16777216 + b4 * 4294967296 + b5
        * 1099511627776 + b6 * 281474976710656 + b7 * 72057594037927936;
    proof {
        let s = buf@.subrange(off as int, off as int + 8);
        reveal_with_fuel(le_value_from, 9);
        assert(s.len() == 8);
        assert(r as nat == le_bytes_value(s));
    }
    r
}

/// The eight-byte little-endian encoding of `v`.
pub fn u64_le_bytes(v: u64) -> (r: Vec<u8>)
    ensures
        r@.len() == 8,
        le_bytes_value(r@) == v as nat,
{
    let b0 = (v % 256) as u8;
    let v1 = v / 256;
    let b1 = (v1 % 256) as u8;
    let v2 = v1 / 256;
    let b2 = (v2 % 256) as u8;
    let v3 = v2 / 256;
    let b3 = (v3 % 256) as u8;
    let v4 = v3 / 256;
    let b4 = (v4 % 256) as u8;
    let v5 = v4 / 256;
    let b5 = (v5 % 256) as u8;
    let v6 = v5 / 256;
    let b6 = (v6 % 256) as u8;
    let v7 = v6 / 256;
    let b7 = (v7 % 256) as u8;
    let mut r: Vec<u8> = Vec::new();
    r.push(b0);
    r.push(b1);
    r.push(b2);
    r.push(b3);
    r.push(b4);
    r.push(b5);
    r.push(b6);
    r.push(b7);
    proof {
        assert(r@ =~= seq![b0, b1, b2, b3, b4, b5, b6, b7]);
        reveal_with_fuel(le_value_from, 9);
        assert(v7 < 256);
        assert(le_bytes_value(r@) == v as nat);
    }
    r
}

/// From equal little-endian values of the suffixes starting at `i`, the
/// suffixes agree byte for byte.
proof fn lemma_le_value_from_unique(a: Seq<u8>, b: Seq<u8>, i: int)
    requires
        a.len() == b.len(),
        0 <= i <= a.len(),
        le_value_from(a, i) == le_value_from(b, i),
    ensures
        forall|j: int| i <= j < a.len() ==> a[j] == b[j],
    decreases a.len() - i,
{
    if i < a.len() {
        assert((a[i] as nat + 256 * le_value_from(a, i + 1)) % 256 == a[i] as nat)
            by (nonlinear_arith)
            requires
                a[i] < 256,
        ;
        assert((b[i] as nat + 256 * le_value_from(b, i + 1)) % 256 == b[i] as nat)
            by (nonlinear_arith)
            requires
                b[i] < 256,
        ;
        assert(a[i] == b[i]);
        assert(le_value_from(a, i + 1) == le_value_from(b, i + 1)) by (nonlinear_arith)
            requires
                a[i] as nat + 256 * le_value_from(a, i + 1) == b[i] as nat + 256 * le_value_from(
                    b,
                    i + 1,
                ),
                a[i] == b[i],
        ;
        lemma_le_value_from_unique(a, b, i + 1);
    }
}

/// Law: byte sequences of equal length with the same little-endian value
/// are equal. With `to_bytes` and `from_bytes` this makes the wire codec
/// a round trip: a record's fields determine its bytes and its bytes its
/// fields.
pub proof fn lemma_le_bytes_unique(a: Seq<u8>, b: Seq<u8>)
    requires
        a.len() == b.len(),
        le_bytes_value(a) == le_bytes_value(b),
    ensures
        a == b,
{
    lemma_le_value_from_unique(a, b, 0);
    assert(a =~= b);
}

/// A vector of `n` zero bytes.
pub fn zero_vec(n: usize) -> (r: Vec<u8>)
    ensures
        r@ == zeros(n as int),
{
    let mut r: Vec<u8> = Vec::new();
    let mut i: usize = 0;
    while i < n
        invariant
            i <= n,
            r@.len() == i,
            forall|j: int| 0 <= j < i ==> r@[j] == 0u8,
        decreases n - i,
    {
        r.push(0u8);
        i += 1;
    }
    proof {
        assert(r@ =~= zeros(n as int));
    }
    r
}

} // verus!
