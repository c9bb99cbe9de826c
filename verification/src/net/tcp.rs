use vstd::prelude::*;

verus! {

/// The byte stream a TCP socket has received and not yet read.
pub struct Stream {
    buffer: Vec<u8>,
}

impl Stream {
    /// The bytes received and not yet read, oldest first.
    pub closed spec fn view(&self) -> Seq<u8> {
        self.buffer@
    }

    /// An empty stream.
    pub fn new() -> (s: Self)
        ensures
            s@ == Seq::<u8>::empty(),
    {
        Stream { buffer: Vec::new() }
    }

    /// Appends received bytes.
    pub fn write(&mut self, buffer: &[u8])
        ensures
            final(self)@ == old(self)@ + buffer@,
    {
        let n = buffer.len();
        let mut i: usize = 0;
        while i < n
            invariant
                n == buffer@.len(),
                i <= n,
                self@ == old(self)@ + buffer@.subrange(0, i as int),
            decreases n - i,
        {
            self.buffer.push(buffer[i]);
            i = i + 1;
            proof {
                assert(buffer@.subrange(0, i as int) =~= buffer@.subrange(0, i - 1).push(buffer@[i - 1]));
            }
        }
        proof {
            assert(buffer@.subrange(0, n as int) =~= buffer@);
        }
    }

    /// Moves the oldest bytes into `buffer`, as many as fit and are there;
    /// returns how many. The rest of `buffer` is left as it was.
    pub fn read(&mut self, buffer: &mut [u8]) -> (size: usize)
        ensures
            size == if old(buffer)@.len() < old(self)@.len() { old(buffer)@.len() } else { old(self)@.len() },
            final(buffer)@ == old(self)@.subrange(0, size as int) + old(buffer)@.subrange(size as int, old(buffer)@.len() as int),
            final(self)@ == old(self)@.subrange(size as int, old(self)@.len() as int),
    {
        let size = if buffer.len() < self.buffer.len() { buffer.len() } else { self.buffer.len() };
        let mut i: usize = 0;
        while i < size
            invariant
                size <= buffer@.len(),
                size <= self.buffer@.len(),
                self.buffer@ == old(self)@,
                buffer@.len() == old(buffer)@.len(),
                i <= size,
                buffer@ == old(self)@.subrange(0, i as int) + old(buffer)@.subrange(i as int, old(buffer)@.len() as int),
            decreases size - i,
        {
            buffer[i] = self.buffer[i];
            i = i + 1;
            proof {
                assert(buffer@ =~= old(self)@.subrange(0, i as int) + old(buffer)@.subrange(i as int, old(buffer)@.len() as int));
            }
        }
        let mut rest: Vec<u8> = Vec::new();
        let n = self.buffer.len();
        let mut k: usize = size;
        while k < n
            invariant
                size <= k <= n,
                n == self.buffer@.len(),
                self.buffer@ == old(self)@,
                rest@ == old(self)@.subrange(size as int, k as int),
            decreases n - k,
        {
            rest.push(self.buffer[k]);
            k = k + 1;
            proof {
                assert(rest@ =~= old(self)@.subrange(size as int, k as int));
            }
        }
        self.buffer = rest;
        size
    }

    /// Whether no byte is waiting to be read.
    pub fn is_empty(&self) -> (r: bool)
        ensures
            r == (self@.len() == 0),
    {
        self.buffer.len() == 0
    }
}


/// TCP header flag: the sender has finished sending.
pub const TCP_FIN: u16 = 0x01;
/// TCP header flag: synchronize sequence numbers.
pub const TCP_SYN: u16 = 0x02;
/// TCP header flag: reset the connection.
pub const TCP_RST: u16 = 0x04;
/// TCP header flag: push the data to the receiver.
pub const TCP_PSH: u16 = 0x08;
/// TCP header flag: the acknowledgment number is significant.
pub const TCP_ACK: u16 = 0x10;
/// TCP header flag: the urgent pointer is significant.
pub const TCP_URG: u16 = 0x20;

use crate::net::{POLL_IN, POLL_OUT};

/// The largest payload a TCP socket puts into one segment.
pub const MAX_MTU: usize = 1460;

/// One more than the largest sequence number.
pub open spec fn seq_space() -> int {
    0x1_0000_0000
}

/// Whether `flags` has every bit of `bits` set.
pub open spec fn has_flags(flags: u16, bits: u16) -> bool {
    flags & bits == bits
}

/// Whether `flags` has every bit of `bits` set.
pub fn contains_flags(flags: u16, bits: u16) -> (r: bool)
    ensures
        r == has_flags(flags, bits),
{
    flags & bits == bits
}

/// A TCP segment: the header fields the socket reads and writes, and the
/// payload.
pub struct TcpSegment {
    pub src_port: u16,
    pub dest_port: u16,
    pub target: [u8; 4],
    pub sequence_number: u32,
    pub ack_number: u32,
    pub window: u16,
    pub flags: u16,
    pub payload: Vec<u8>,
}

/// How much of the sequence space `seg` takes: its payload, and one for
/// each of `SYN` and `FIN`.
pub open spec fn seq_len(seg: TcpSegment) -> nat {
    seg.payload@.len() + (if has_flags(seg.flags, TCP_SYN) { 1nat } else { 0nat }) + (if has_flags(seg.flags, TCP_FIN) { 1nat } else { 0nat })
}

/// How far `seg` advances the sequence number, modulo the sequence space.
pub fn ack_len(seg: &TcpSegment) -> (r: u32)
    ensures
        r == seq_len(*seg) as int % seq_space(),
{
    let len = seg.payload.len();
    let mut extra: u32 = 0;
    if contains_flags(seg.flags, TCP_SYN) {
        extra = extra + 1;
    }
    if contains_flags(seg.flags, TCP_FIN) {
        extra = extra + 1;
    }
    let low = #[verifier::truncate] (len as u32);
    assert(len as u32 == len as int % 0x1_0000_0000) by (bit_vector);
    proof {
        vstd::arithmetic::div_mod::lemma_add_mod_noop(len as int, extra as int, seq_space());
        vstd::arithmetic::div_mod::lemma_small_mod(extra as nat, seq_space() as nat);
        assert(len as int % seq_space() < seq_space());
    }
    low.wrapping_add(extra)
}

/// `a + b` in the sequence space.
pub open spec fn seq_add(a: u32, b: int) -> u32 {
    ((a + b) % seq_space()) as u32
}

/// Where a TCP connection stands.
#[derive(Clone, Copy, Debug, PartialEq, Eq, Structural)]
pub enum TcpState {
    Closed,
    SynSent,
    Established,
}

/// The sequence numbers of a connection: the next one to send and the
/// next one expected from the peer.
pub struct TransmissionControl {
    pub send_next: u32,
    pub recv_next: u32,
}

/// The state of one TCP connection: sequence numbers, where the
/// handshake stands, both ports, the peer's address and the bytes received.
pub struct TcpData {
    control: TransmissionControl,
    state: TcpState,
    src_port: u16,
    dest_port: u16,
    target: [u8; 4],
    stream: Stream,
}

impl TcpData {
    pub closed spec fn spec_send_next(&self) -> u32 {
        self.control.send_next
    }

    pub closed spec fn spec_recv_next(&self) -> u32 {
        self.control.recv_next
    }

    pub closed spec fn spec_state(&self) -> TcpState {
        self.state
    }

    pub closed spec fn spec_src_port(&self) -> u16 {
        self.src_port
    }

    pub closed spec fn spec_dest_port(&self) -> u16 {
        self.dest_port
    }

    pub closed spec fn spec_target(&self) -> [u8; 4] {
        self.target
    }

    pub closed spec fn spec_stream(&self) -> Seq<u8> {
        self.stream@
    }

    /// All fields but the sequence numbers and the state are those of `other`.
    pub open spec fn same_endpoints(&self, other: &TcpData) -> bool {
        &&& self.spec_src_port() == other.spec_src_port()
        &&& self.spec_dest_port() == other.spec_dest_port()
        &&& self.spec_target() == other.spec_target()
    }

    /// A closed connection with everything zero and nothing received.
    pub fn new() -> (d: Self)
        ensures
            d.spec_send_next() == 0,
            d.spec_recv_next() == 0,
            d.spec_state() == TcpState::Closed,
            d.spec_src_port() == 0,
            d.spec_dest_port() == 0,
            d.spec_target()@ == seq![0u8, 0u8, 0u8, 0u8],
            d.spec_stream() == Seq::<u8>::empty(),
    {
        TcpData {
            control: TransmissionControl { send_next: 0, recv_next: 0 },
            state: TcpState::Closed,
            src_port: 0,
            dest_port: 0,
            target: [0u8; 4],
            stream: Stream::new(),
        }
    }

    /// A segment from this connection's ports to its peer with the next
    /// sequence number, the largest window, `flags`, and a zeroed payload
    /// of `size` bytes.
    pub fn make_packet(&self, size: usize, flags: u16) -> (seg: TcpSegment)
        ensures
            seg.src_port == self.spec_src_port(),
            seg.dest_port == self.spec_dest_port(),
            seg.target == self.spec_target(),
            seg.sequence_number == self.spec_send_next(),
            seg.ack_number == 0,
            seg.window == u16::MAX,
            seg.flags == flags,
            seg.payload@ == Seq::new(size as nat, |i: int| 0u8),
    {
        let mut payload: Vec<u8> = Vec::new();
        let mut i: usize = 0;
        while i < size
            invariant
                i <= size,
                payload@ == Seq::new(i as nat, |k: int| 0u8),
            decreases size - i,
        {
            payload.push(0u8);
            i = i + 1;
            proof {
                assert(payload@ =~= Seq::new(i as nat, |k: int| 0u8));
            }
        }
        TcpSegment {
            src_port: self.src_port,
            dest_port: self.dest_port,
            target: self.target,
            sequence_number: self.control.send_next,
            ack_number: 0,
            window: u16::MAX,
            flags,
            payload,
        }
    }

    /// A segment as [`Self::make_packet`] makes it with no flag set, that
    /// acknowledges everything received so far.
    pub fn make_ack_packet(&self, size: usize) -> (seg: TcpSegment)
        ensures
            seg.src_port == self.spec_src_port(),
            seg.dest_port == self.spec_dest_port(),
            seg.target == self.spec_target(),
            seg.sequence_number == self.spec_send_next(),
            seg.ack_number == self.spec_recv_next(),
            seg.window == u16::MAX,
            seg.flags == 0,
            seg.payload@ == Seq::new(size as nat, |i: int| 0u8),
    {
        let mut packet = self.make_packet(size, 0);
        packet.ack_number = self.control.recv_next;
        packet
    }

    /// Sends `packet`: advances the next sequence number past it and hands
    /// it back, to be put on the wire.
    pub fn send_packet(&mut self, packet: TcpSegment) -> (sent: TcpSegment)
        ensures
            sent == packet,
            final(self).spec_send_next() == seq_add(old(self).spec_send_next(), seq_len(packet) as int),
            final(self).spec_recv_next() == old(self).spec_recv_next(),
            final(self).spec_state() == old(self).spec_state(),
            final(self).same_endpoints(old(self)),
            final(self).spec_stream() == old(self).spec_stream(),
    {
        let len = ack_len(&packet);
        proof {
            vstd::arithmetic::div_mod::lemma_add_mod_noop_right(self.control.send_next as int, seq_len(packet) as int, seq_space());
        }
        self.control.send_next = self.control.send_next.wrapping_add(len);
        packet
    }

    /// Opens the connection: sends `SYN` (taking one sequence number) and
    /// waits for the peer's answer. Returns the segment to put on the wire.
    pub fn send_sync(&mut self) -> (sent: TcpSegment)
        ensures
            sent.flags == TCP_SYN,
            sent.sequence_number == old(self).spec_send_next(),
            sent.src_port == old(self).spec_src_port(),
            sent.dest_port == old(self).spec_dest_port(),
            sent.target == old(self).spec_target(),
            sent.ack_number == 0,
            sent.window == u16::MAX,
            sent.payload@.len() == 0,
            final(self).spec_send_next() == seq_add(old(self).spec_send_next(), 1),
            final(self).spec_state() == TcpState::SynSent,
            final(self).spec_recv_next() == old(self).spec_recv_next(),
            final(self).same_endpoints(old(self)),
            final(self).spec_stream() == old(self).spec_stream(),
    {
        let packet = self.make_packet(0, TCP_SYN);
        proof {
            assert(has_flags(TCP_SYN, TCP_SYN)) by (bit_vector);
            assert(!has_flags(TCP_SYN, TCP_FIN)) by (bit_vector);
        }
        let sent = self.send_packet(packet);
        self.state = TcpState::SynSent;
        sent
    }

    /// Connects to port `dest_port` of `target` from local port `src_port`:
    /// records the endpoints and sends `SYN`.
    pub fn connect(&mut self, src_port: u16, dest_port: u16, target: [u8; 4]) -> (sent: TcpSegment)
        ensures
            final(self).spec_src_port() == src_port,
            final(self).spec_dest_port() == dest_port,
            final(self).spec_target() == target,
            final(self).spec_state() == TcpState::SynSent,
            final(self).spec_send_next() == seq_add(old(self).spec_send_next(), 1),
            final(self).spec_recv_next() == old(self).spec_recv_next(),
            final(self).spec_stream() == old(self).spec_stream(),
            sent.flags == TCP_SYN,
            sent.sequence_number == old(self).spec_send_next(),
            sent.src_port == src_port,
            sent.dest_port == dest_port,
            sent.target == target,
            sent.payload@.len() == 0,
    {
        self.src_port = src_port;
        self.dest_port = dest_port;
        self.target = target;
        self.send_sync()
    }

    /// Handles segment `packet` from the peer. While `SYN` is out, the
    /// peer's `SYN`+`ACK` establishes the connection; once established, a
    /// payload is appended to the stream, and a segment with neither payload
    /// nor `FIN` needs no answer. When an answer is due, the next expected
    /// sequence number moves past `packet` and an empty acknowledgment is
    /// sent, which is returned to be put on the wire.
    pub fn recv(&mut self, packet: TcpSegment) -> (ack: Option<TcpSegment>)
        requires
            old(self).spec_state() != TcpState::Closed,
            old(self).spec_state() == TcpState::SynSent ==> has_flags(packet.flags, TCP_ACK | TCP_SYN),
            old(self).spec_state() == TcpState::Established ==> !(packet.payload@.len() == 0 && has_flags(packet.flags, TCP_FIN)),
        ensures
            final(self).same_endpoints(old(self)),
            final(self).spec_send_next() == old(self).spec_send_next(),
            final(self).spec_state() == TcpState::Established,
            final(self).spec_stream() == if old(self).spec_state() == TcpState::Established {
                old(self).spec_stream() + packet.payload@
            } else {
                old(self).spec_stream()
            },
            if old(self).spec_state() == TcpState::Established && packet.payload@.len() == 0 {
                &&& ack is None
                &&& final(self).spec_recv_next() == old(self).spec_recv_next()
            } else {
                &&& final(self).spec_recv_next() == seq_add(packet.sequence_number, seq_len(packet) as int)
                &&& ack matches Some(a) && {
                    &&& a.flags == 0
                    &&& a.payload@.len() == 0
                    &&& a.sequence_number == old(self).spec_send_next()
                    &&& a.ack_number == final(self).spec_recv_next()
                    &&& a.src_port == old(self).spec_src_port()
                    &&& a.dest_port == old(self).spec_dest_port()
                    &&& a.target == old(self).spec_target()
                    &&& a.window == u16::MAX
                }
            },
    {
        match self.state {
            TcpState::SynSent => {
                self.state = TcpState::Established;
            },
            TcpState::Established => {
                if packet.payload.len() > 0 {
                    self.stream.write(packet.payload.as_slice());
                } else {
                    return None;
                }
            },
            TcpState::Closed => {
                return None;
            },
        }
        let len = ack_len(&packet);
        proof {
            vstd::arithmetic::div_mod::lemma_add_mod_noop_right(packet.sequence_number as int, seq_len(packet) as int, seq_space());
        }
        self.control.recv_next = packet.sequence_number.wrapping_add(len);
        let ack = self.make_ack_packet(0);
        proof {
            assert(!has_flags(0, TCP_SYN)) by (bit_vector);
            assert(!has_flags(0, TCP_FIN)) by (bit_vector);
            assert(seq_len(ack) == 0);
        }
        let sent = self.send_packet(ack);
        Some(sent)
    }

    /// Sends `data` to the peer, cut into segments of at most `MAX_MTU`
    /// bytes in order; each acknowledges everything received and takes the
    /// sequence numbers of its bytes. Returns the segments to put on the
    /// wire.
    pub fn send_data(&mut self, data: &[u8]) -> (segs: Vec<TcpSegment>)
        ensures
            segs@.len() == chunk_count(data@.len()),
            forall|k: int| 0 <= k < segs@.len() ==> {
                let seg = #[trigger] segs@[k];
                &&& seg.payload@ == chunk(data@, k)
                &&& seg.sequence_number == seq_add(old(self).spec_send_next(), k * MAX_MTU)
                &&& seg.ack_number == old(self).spec_recv_next()
                &&& seg.flags == 0
                &&& seg.window == u16::MAX
                &&& seg.src_port == old(self).spec_src_port()
                &&& seg.dest_port == old(self).spec_dest_port()
                &&& seg.target == old(self).spec_target()
            },
            final(self).spec_send_next() == seq_add(old(self).spec_send_next(), data@.len() as int),
            final(self).spec_recv_next() == old(self).spec_recv_next(),
            final(self).spec_state() == old(self).spec_state(),
            final(self).same_endpoints(old(self)),
            final(self).spec_stream() == old(self).spec_stream(),
    {
        let n = data.len();
        let mut segs: Vec<TcpSegment> = Vec::new();
        let mut off: usize = 0;
        proof {
            vstd::arithmetic::div_mod::lemma_small_mod(old(self).spec_send_next() as nat, seq_space() as nat);
        }
        while off < n
            invariant
                n == data@.len(),
                off <= n,
                off == min_int(segs@.len() * MAX_MTU, n as int),
                segs@.len() == 0 || (segs@.len() - 1) * MAX_MTU < n,
                self.spec_send_next() == seq_add(old(self).spec_send_next(), off as int),
                self.spec_recv_next() == old(self).spec_recv_next(),
                self.spec_state() == old(self).spec_state(),
                self.same_endpoints(old(self)),
                self.spec_stream() == old(self).spec_stream(),
                forall|k: int| 0 <= k < segs@.len() ==> {
                    let seg = #[trigger] segs@[k];
                    &&& seg.payload@ == chunk(data@, k)
                    &&& seg.sequence_number == seq_add(old(self).spec_send_next(), k * MAX_MTU)
                    &&& seg.ack_number == old(self).spec_recv_next()
                    &&& seg.flags == 0
                    &&& seg.window == u16::MAX
                    &&& seg.src_port == old(self).spec_src_port()
                    &&& seg.dest_port == old(self).spec_dest_port()
                    &&& seg.target == old(self).spec_target()
                },
            decreases n - off,
        {
            let end = if n - off > MAX_MTU { off + MAX_MTU } else { n };
            let ghost k = segs@.len() as int;
            let mut payload: Vec<u8> = Vec::new();
            let mut i: usize = off;
            while i < end
                invariant
                    off <= i <= end <= n,
                    n == data@.len(),
                    payload@ == data@.subrange(off as int, i as int),
                decreases end - i,
            {
                payload.push(data[i]);
                i = i + 1;
                proof {
                    assert(payload@ =~= data@.subrange(off as int, i as int));
                }
            }
            let mut packet = self.make_ack_packet(end - off);
            packet.payload = payload;
            proof {
                assert(!has_flags(0, TCP_SYN)) by (bit_vector);
                assert(!has_flags(0, TCP_FIN)) by (bit_vector);
                assert(off == k * MAX_MTU);
                assert(payload@ =~= chunk(data@, k));
                let a = old(self).spec_send_next() as int;
                vstd::arithmetic::div_mod::lemma_add_mod_noop(a + off, (end - off) as int, seq_space());
                vstd::arithmetic::div_mod::lemma_small_mod((end - off) as nat, seq_space() as nat);
                vstd::arithmetic::div_mod::lemma_add_mod_noop(a, off as int, seq_space());
                vstd::arithmetic::div_mod::lemma_small_mod(a as nat, seq_space() as nat);
                assert(seq_add(seq_add(old(self).spec_send_next(), off as int), (end - off) as int)
                    == seq_add(old(self).spec_send_next(), end as int));
            }
            let sent = self.send_packet(packet);
            segs.push(sent);
            off = end;
        }
        proof {
            let k = segs@.len();
            assert(chunk_count(n as nat) == k) by {
                if k == 0 {
                    assert(n == 0);
                } else {
                    assert((k - 1) * MAX_MTU < n <= k * MAX_MTU);
                    lemma_chunk_count(n as nat, k);
                }
            }
        }
        segs
    }

    /// Moves the oldest received bytes into `buffer`, as many as fit and
    /// are there; returns how many.
    pub fn read(&mut self, buffer: &mut [u8]) -> (size: usize)
        ensures
            size == if old(buffer)@.len() < old(self).spec_stream().len() { old(buffer)@.len() } else { old(self).spec_stream().len() },
            final(buffer)@ == old(self).spec_stream().subrange(0, size as int) + old(buffer)@.subrange(size as int, old(buffer)@.len() as int),
            final(self).spec_stream() == old(self).spec_stream().subrange(size as int, old(self).spec_stream().len() as int),
            final(self).spec_send_next() == old(self).spec_send_next(),
            final(self).spec_recv_next() == old(self).spec_recv_next(),
            final(self).spec_state() == old(self).spec_state(),
            final(self).same_endpoints(old(self)),
    {
        self.stream.read(buffer)
    }

    /// Whether no received byte is waiting.
    pub fn stream_is_empty(&self) -> (r: bool)
        ensures
            r == (self.spec_stream().len() == 0),
    {
        self.stream.is_empty()
    }

    /// Where the connection stands.
    pub fn state(&self) -> (r: TcpState)
        ensures
            r == self.spec_state(),
    {
        self.state
    }

    /// Whether the handshake is done.
    pub fn is_established(&self) -> (r: bool)
        ensures
            r == (self.spec_state() == TcpState::Established),
    {
        self.state == TcpState::Established
    }

    /// Readiness of the socket: nothing while closed; otherwise writable,
    /// and readable when received bytes are waiting.
    pub fn poll(&self) -> (flags: u16)
        ensures
            flags == if self.spec_state() == TcpState::Closed {
                0
            } else if self.spec_stream().len() > 0 {
                POLL_OUT | POLL_IN
            } else {
                POLL_OUT
            },
    {
        if self.state == TcpState::Closed {
            return 0;
        }
        if !self.stream.is_empty() {
            POLL_OUT | POLL_IN
        } else {
            POLL_OUT
        }
    }
}

/// The smaller of `a` and `b`.
pub open spec fn min_int(a: int, b: int) -> int {
    if a < b { a } else { b }
}

/// How many segments `len` bytes take.
pub open spec fn chunk_count(len: nat) -> nat {
    ((len + MAX_MTU - 1) / MAX_MTU as int) as nat
}

/// The bytes of the `k`-th segment when `data` is sent.
pub open spec fn chunk(data: Seq<u8>, k: int) -> Seq<u8> {
    data.subrange(k * MAX_MTU, min_int((k + 1) * MAX_MTU, data.len() as int))
}

proof fn lemma_chunk_count(n: nat, k: nat)
    requires
        k > 0,
        (k - 1) * MAX_MTU < n <= k * MAX_MTU,
    ensures
        chunk_count(n) == k,
{
    assert((n + MAX_MTU - 1) / MAX_MTU as int == k) by (nonlinear_arith)
        requires
            (k - 1) * 1460 < n <= k * 1460,
            MAX_MTU == 1460,
    ;
}

/// The first `k` chunks of `data`, back to back.
pub open spec fn chunks_concat(data: Seq<u8>, k: nat) -> Seq<u8>
    decreases k,
{
    if k == 0 {
        Seq::empty()
    } else {
        chunks_concat(data, (k - 1) as nat) + chunk(data, k - 1)
    }
}

proof fn lemma_chunks_prefix(data: Seq<u8>, k: nat)
    requires
        k == 0 || (k - 1) * MAX_MTU < data.len(),
    ensures
        chunks_concat(data, k) == data.subrange(0, min_int(k * MAX_MTU, data.len() as int)),
    decreases k,
{
    if k == 0 {
        assert(data.subrange(0, 0) =~= Seq::<u8>::empty());
    } else {
        if k > 1 {
            assert((k - 2) * MAX_MTU < data.len());
        }
        lemma_chunks_prefix(data, (k - 1) as nat);
        assert(chunks_concat(data, k) =~= data.subrange(0, min_int(k * MAX_MTU, data.len() as int)));
    }
}

/// Nothing is lost or reordered when data is cut into segments: the
/// payloads of the segments that `send_data` sends, back to back, are the
/// data.
pub proof fn lemma_segments_carry_data(data: Seq<u8>)
    ensures
        chunks_concat(data, chunk_count(data.len())) == data,
{
    let n = data.len();
    let k = chunk_count(n);
    assert(k == 0 || (k - 1) * MAX_MTU < n <= k * MAX_MTU) by (nonlinear_arith)
        requires
            k == (n + 1460 - 1) / 1460,
    ;
    lemma_chunks_prefix(data, k);
    assert(data.subrange(0, n as int) =~= data);
}

} // verus!
