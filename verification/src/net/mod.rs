use vstd::prelude::*;

pub mod tcp;
pub mod udp;
pub mod unix;

verus! {

/// Poll event: data can be read.
pub const POLL_IN: u16 = 0x1;

/// Poll event: urgent data can be read.
pub const POLL_PRI: u16 = 0x2;

/// Poll event: data can be written.
pub const POLL_OUT: u16 = 0x4;

pub const PF_INET: u32 = 1;
pub const PF_INET6: u32 = 2;
pub const PF_UNIX: u32 = 3;
pub const PF_LOCAL: u32 = 3;
pub const PF_UNSPEC: u32 = 4;
pub const PF_NETLINK: u32 = 5;
pub const PF_BRIDGE: u32 = 6;

pub const AF_INET: u32 = PF_INET;
pub const AF_INET6: u32 = PF_INET6;
pub const AF_UNIX: u32 = PF_UNIX;
pub const AF_LOCAL: u32 = PF_LOCAL;
pub const AF_UNSPEC: u32 = PF_UNSPEC;
pub const AF_NETLINK: u32 = PF_NETLINK;
pub const AF_BRIDGE: u32 = PF_BRIDGE;

/// IP protocol numbers as the socket interface numbers them.
#[derive(Debug, Copy, Clone, PartialEq, Eq, Structural)]
pub enum IpProtocol {
    Default,
    Ip,
    Ipv6,
    Icmp,
    Raw,
    Tcp,
    Udp,
    Igmp,
    Ipip,
    Dccp,
    Routing,
    Gre,
    Esp,
    Ah,
    Icmpv6,
    Dstopts,
    Comp,
    Sctp,
    Max,
}

/// The number of each protocol.
pub open spec fn ip_protocol_number(p: IpProtocol) -> u32 {
    match p {
        IpProtocol::Default => 0,
        IpProtocol::Ip => 1,
        IpProtocol::Ipv6 => 2,
        IpProtocol::Icmp => 3,
        IpProtocol::Raw => 4,
        IpProtocol::Tcp => 5,
        IpProtocol::Udp => 6,
        IpProtocol::Igmp => 7,
        IpProtocol::Ipip => 8,
        IpProtocol::Dccp => 33,
        IpProtocol::Routing => 43,
        IpProtocol::Gre => 47,
        IpProtocol::Esp => 50,
        IpProtocol::Ah => 51,
        IpProtocol::Icmpv6 => 58,
        IpProtocol::Dstopts => 60,
        IpProtocol::Comp => 108,
        IpProtocol::Sctp => 132,
        IpProtocol::Max => 256,
    }
}

impl IpProtocol {
    /// The protocol's number.
    pub fn number(&self) -> (n: u32)
        ensures
            n == ip_protocol_number(*self),
    {
        match self {
            IpProtocol::Default => 0,
            IpProtocol::Ip => 1,
            IpProtocol::Ipv6 => 2,
            IpProtocol::Icmp => 3,
            IpProtocol::Raw => 4,
            IpProtocol::Tcp => 5,
            IpProtocol::Udp => 6,
            IpProtocol::Igmp => 7,
            IpProtocol::Ipip => 8,
            IpProtocol::Dccp => 33,
            IpProtocol::Routing => 43,
            IpProtocol::Gre => 47,
            IpProtocol::Esp => 50,
            IpProtocol::Ah => 51,
            IpProtocol::Icmpv6 => 58,
            IpProtocol::Dstopts => 60,
            IpProtocol::Comp => 108,
            IpProtocol::Sctp => 132,
            IpProtocol::Max => 256,
        }
    }
}

/// Socket types, numbered as in mlibc's `socket.h`.
#[derive(Debug, Copy, Clone, PartialEq, Eq, Structural)]
pub enum SocketType {
    Dgram,
    Raw,
    SeqPacket,
    Stream,
    Dccp,
}

/// The number of each socket type.
pub open spec fn socket_type_number(t: SocketType) -> u32 {
    match t {
        SocketType::Dgram => 1,
        SocketType::Raw => 2,
        SocketType::SeqPacket => 3,
        SocketType::Stream => 4,
        SocketType::Dccp => 5,
    }
}

impl SocketType {
    /// The socket type's number.
    pub fn number(&self) -> (n: u32)
        ensures
            n == socket_type_number(*self),
    {
        match self {
            SocketType::Dgram => 1,
            SocketType::Raw => 2,
            SocketType::SeqPacket => 3,
            SocketType::Stream => 4,
            SocketType::Dccp => 5,
        }
    }
}

/// Socket type numbers of the C library's `socket.h`.
pub const SOCK_DGRAM: u32 = 1;
pub const SOCK_RAW: u32 = 2;
pub const SOCK_SEQPACKET: u32 = 3;
pub const SOCK_STREAM: u32 = 4;
pub const SOCK_DCCP: u32 = 5;

/// Each socket type has the number that `socket.h` gives it, so no two
/// types share a number.
pub proof fn lemma_socket_type_numbers()
    ensures
        socket_type_number(SocketType::Dgram) == SOCK_DGRAM,
        socket_type_number(SocketType::Raw) == SOCK_RAW,
        socket_type_number(SocketType::SeqPacket) == SOCK_SEQPACKET,
        socket_type_number(SocketType::Stream) == SOCK_STREAM,
        socket_type_number(SocketType::Dccp) == SOCK_DCCP,
        forall|a: SocketType, b: SocketType| socket_type_number(a) == socket_type_number(b) ==> a == b,
{
}

/// Each protocol has its IP protocol number (`IPPROTO_TCP` is 6 in the
/// C library, here numbered as the socket interface numbers them: TCP 5,
/// UDP 6, DCCP 33, SCTP 132, ...), and no two protocols share a number.
pub proof fn lemma_ip_protocol_numbers()
    ensures
        ip_protocol_number(IpProtocol::Default) == 0,
        ip_protocol_number(IpProtocol::Ip) == 1,
        ip_protocol_number(IpProtocol::Ipv6) == 2,
        ip_protocol_number(IpProtocol::Icmp) == 3,
        ip_protocol_number(IpProtocol::Raw) == 4,
        ip_protocol_number(IpProtocol::Tcp) == 5,
        ip_protocol_number(IpProtocol::Udp) == 6,
        ip_protocol_number(IpProtocol::Igmp) == 7,
        ip_protocol_number(IpProtocol::Ipip) == 8,
        ip_protocol_number(IpProtocol::Dccp) == 33,
        ip_protocol_number(IpProtocol::Routing) == 43,
        ip_protocol_number(IpProtocol::Gre) == 47,
        ip_protocol_number(IpProtocol::Esp) == 50,
        ip_protocol_number(IpProtocol::Ah) == 51,
        ip_protocol_number(IpProtocol::Icmpv6) == 58,
        ip_protocol_number(IpProtocol::Dstopts) == 60,
        ip_protocol_number(IpProtocol::Comp) == 108,
        ip_protocol_number(IpProtocol::Sctp) == 132,
        ip_protocol_number(IpProtocol::Max) == 256,
        forall|a: IpProtocol, b: IpProtocol| ip_protocol_number(a) == ip_protocol_number(b) ==> a == b,
{
}

/// A socket address of some family.
pub trait SocketAddr {}

/// A Unix domain socket address: the family and a nul-terminated path.
#[derive(Debug, Clone, Copy)]
pub struct SocketAddrUnix {
    pub family: u32,
    pub path: [u8; 108],
}

impl Default for SocketAddrUnix {
    fn default() -> (r: Self)
        ensures
            r.family == AF_UNIX,
            forall|i: int| 0 <= i < 108 ==> r.path@[i] == 0u8,
    {
        Self { family: AF_UNIX, path: [0u8; 108] }
    }
}

/// An IPv4 address as it is stored in memory.
#[derive(Debug, Clone, Copy)]
pub struct InAddr {
    pub addr: u32,
}

/// An IPv4 socket address. The port is kept in network byte order, the
/// high byte first.
#[derive(Debug, Clone, Copy)]
pub struct SocketAddrInet {
    pub family: u32,
    pub port: [u8; 2],
    pub sin_addr: InAddr,
    pub padding: [u8; 8],
}

/// The bytes of `x`, lowest first.
pub open spec fn le_bytes(x: u32) -> Seq<u8> {
    seq![(x % 0x100) as u8, (x / 0x100 % 0x100) as u8, (x / 0x1_0000 % 0x100) as u8, (x / 0x100_0000) as u8]
}

/// The port number stored in network byte order in `port`.
pub open spec fn be_port(port: [u8; 2]) -> u16 {
    (port@[0] * 0x100 + port@[1]) as u16
}

/// The four bytes of an address, least significant first, put back
/// together give the address.
pub proof fn lemma_le_bytes_rebuild(x: u32)
    ensures
        le_bytes(x).len() == 4,
        le_bytes(x)[0] + 0x100 * le_bytes(x)[1] + 0x1_0000 * le_bytes(x)[2] + 0x100_0000 * le_bytes(x)[3] == x,
{
    assert(le_bytes(x)[0] == x % 0x100);
    assert(le_bytes(x)[1] == x / 0x100 % 0x100);
    assert(le_bytes(x)[2] == x / 0x1_0000 % 0x100);
    assert(le_bytes(x)[3] == x / 0x100_0000);
    assert(x % 0x100 + 0x100 * (x / 0x100 % 0x100) + 0x1_0000 * (x / 0x1_0000 % 0x100) + 0x100_0000 * (x / 0x100_0000) == x)
        by (nonlinear_arith);
}

/// A port in network byte order has its high byte first: the port's high
/// byte is the first byte and its low byte the second.
pub proof fn lemma_be_port_bytes(port: [u8; 2])
    ensures
        be_port(port) / 0x100 == port@[0],
        be_port(port) % 0x100 == port@[1],
{
}

impl SocketAddrInet {
    /// The four bytes of the address in memory order.
    pub fn addr(&self) -> (r: [u8; 4])
        ensures
            r@ == le_bytes(self.sin_addr.addr),
    {
        let a = self.sin_addr.addr;
        let r = [(a % 0x100) as u8, (a / 0x100 % 0x100) as u8, (a / 0x1_0000 % 0x100) as u8, (a / 0x100_0000) as u8];
        assert(r@ =~= le_bytes(a));
        r
    }

    /// The port number.
    pub fn prot(&self) -> (r: u16)
        ensures
            r == be_port(self.port),
    {
        self.port[0] as u16 * 0x100 + self.port[1] as u16
    }
}

impl SocketAddr for SocketAddrUnix {}

impl SocketAddr for SocketAddrInet {}

/// Errors of file system operations on sockets.
#[derive(Debug, Clone, Copy, PartialEq, Eq, Structural)]
pub enum FileSystemError {
    NotSupported,
    WouldBlock,
    InvalidPath,
    NotConnected,
    EntryExists,
    ConnectionRefused,
    NotSocket,
}

/// Errors of socket system calls.
#[derive(Debug, Clone, Copy, PartialEq, Eq, Structural)]
pub enum SyscallError {
    /// Try again: the queue is full.
    EAGAIN,
    /// Invalid argument.
    EINVAL,
}

/// Message flags of `send` and `recv`.
pub const MSG_CTRUNC: usize = 0x1;
pub const MSG_DONTROUTE: usize = 0x2;
pub const MSG_EOR: usize = 0x4;
pub const MSG_OOB: usize = 0x8;
pub const MSG_NOSIGNAL: usize = 0x10;
pub const MSG_PEEK: usize = 0x20;
pub const MSG_TRUNC: usize = 0x40;
pub const MSG_WAITALL: usize = 0x80;
pub const MSG_FIN: usize = 0x200;
pub const MSG_CONFIRM: usize = 0x800;
pub const MSG_DONTWAIT: usize = 0x1000;
pub const MSG_CMSG_CLOEXEC: usize = 0x2000;
pub const MSG_MORE: usize = 0x4000;
pub const MSG_FASTOPEN: usize = 0x2000_0000;

/// A message header of `sendmsg`/`recvmsg` as user memory holds it;
/// pointers are user addresses.
#[derive(Debug, Clone, Copy)]
pub struct MessageHeader {
    /// Address of the socket address structure.
    pub name: usize,
    /// Size of the socket address structure.
    pub name_len: usize,
    pub iovec: usize,
    pub iovec_len: i32,
    pub control: usize,
    pub control_len: usize,
    pub flags: i32,
}

/// One buffer of a vectored I/O call: its user address and length.
#[derive(Debug, Clone, Copy)]
pub struct IoVec {
    pub base: usize,
    pub len: usize,
}

impl IoVec {
    /// The length of the I/O vector.
    pub fn len(&self) -> (r: usize)
        ensures
            r == self.len,
    {
        self.len
    }
}

/// Where vector `i` starts when a message of `len` bytes is copied into
/// vectors of lengths `lens`, filled in turn: the lengths of the earlier
/// vectors added up, but never past the end of the message.
pub open spec fn scatter_offset(lens: Seq<usize>, i: int, len: int) -> int
    decreases i,
{
    if i <= 0 {
        0
    } else {
        let p = scatter_offset(lens, i - 1, len) + lens[i - 1];
        if p < len {
            p
        } else {
            len
        }
    }
}

/// The lengths of the first `i` vectors added up.
pub open spec fn total_len(lens: Seq<usize>, i: int) -> int
    decreases i,
{
    if i <= 0 {
        0
    } else {
        total_len(lens, i - 1) + lens[i - 1]
    }
}

/// Copying a message into vectors stops at the end of the message or of the
/// vectors, whichever comes first.
pub proof fn lemma_scatter_offset(lens: Seq<usize>, i: int, len: int)
    requires
        0 <= i <= lens.len(),
        0 <= len,
    ensures
        scatter_offset(lens, i, len) == if total_len(lens, i) < len { total_len(lens, i) } else { len },
    decreases i,
{
    if i > 0 {
        lemma_scatter_offset(lens, i - 1, len);
    }
}

/// Copies the message `data` into vectors of lengths `lens`, each filled in
/// turn from where the previous one stopped: the part of the message that
/// goes into each vector, and how many bytes were copied in all, which is
/// the message's length or the vectors' total length, whichever is less.
pub fn scatter(data: &[u8], lens: &[usize]) -> (r: (Vec<Vec<u8>>, usize))
    ensures
        r.0@.len() == lens@.len(),
        forall|i: int| 0 <= i < lens@.len() ==> (#[trigger] r.0@[i])@ == data@.subrange(
            scatter_offset(lens@, i, data@.len() as int),
            scatter_offset(lens@, i + 1, data@.len() as int),
        ),
        r.1 == scatter_offset(lens@, lens@.len() as int, data@.len() as int),
        r.1 == if total_len(lens@, lens@.len() as int) < data@.len() {
            total_len(lens@, lens@.len() as int)
        } else {
            data@.len() as int
        },
{
    let len = data.len();
    let mut out: Vec<Vec<u8>> = Vec::new();
    let mut off: usize = 0;
    let mut i: usize = 0;
    while i < lens.len()
        invariant
            len == data@.len(),
            i <= lens@.len(),
            off == scatter_offset(lens@, i as int, len as int),
            off <= len,
            out@.len() == i,
            forall|k: int| 0 <= k < i ==> (#[trigger] out@[k])@ == data@.subrange(
                scatter_offset(lens@, k, len as int),
                scatter_offset(lens@, k + 1, len as int),
            ),
        decreases lens@.len() - i,
    {
        let remaining = len - off;
        let take = if lens[i] < remaining { lens[i] } else { remaining };
        let mut chunk: Vec<u8> = Vec::new();
        let mut j: usize = 0;
        while j < take
            invariant
                len == data@.len(),
                off + take <= len,
                j <= take,
                chunk@ == data@.subrange(off as int, off + j),
            decreases take - j,
        {
            chunk.push(data[off + j]);
            j = j + 1;
            proof {
                assert(chunk@ =~= data@.subrange(off as int, off + j));
            }
        }
        let ghost before = out@;
        out.push(chunk);
        proof {
            assert(scatter_offset(lens@, i + 1, len as int) == off + take);
            assert forall|k: int| 0 <= k < i + 1 implies (#[trigger] out@[k])@ == data@.subrange(
                scatter_offset(lens@, k, len as int),
                scatter_offset(lens@, k + 1, len as int),
            ) by {
                if k < i {
                    assert(out@[k] == before[k]);
                }
            }
        }
        off = off + take;
        i = i + 1;
    }
    proof {
        lemma_scatter_offset(lens@, lens@.len() as int, len as int);
    }
    (out, off)
}

} // verus!
