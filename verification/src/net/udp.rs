use vstd::prelude::*;
use crate::net::{be_port, le_bytes, FileSystemError, SocketAddrInet, POLL_IN, POLL_OUT};

verus! {

/// A UDP datagram: both ports, the destination address and the payload.
pub struct UdpDatagram {
    pub src_port: u16,
    pub dest_port: u16,
    pub dest_ip: [u8; 4],
    pub payload: Vec<u8>,
}

/// Whether a UDP socket is connected, and to which address.
#[derive(Clone, Copy)]
pub enum SocketState {
    /// The socket is not connected.
    Disconnected,
    Connected(SocketAddrInet),
}

/// The address `127.0.0.1`.
pub open spec fn is_loopback(ip: [u8; 4]) -> bool {
    ip@ == seq![127u8, 0u8, 0u8, 1u8]
}

/// The part of a UDP socket that its lock guards: the address it is bound
/// to, whether it is connected, and the datagrams received and not yet read.
pub struct UdpSocketInner {
    address: Option<SocketAddrInet>,
    state: SocketState,
    incoming: Vec<UdpDatagram>,
}

impl UdpSocketInner {
    pub closed spec fn spec_address(&self) -> Option<SocketAddrInet> {
        self.address
    }

    pub closed spec fn spec_state(&self) -> SocketState {
        self.state
    }

    /// The received datagrams, in order of arrival.
    pub closed spec fn spec_incoming(&self) -> Seq<UdpDatagram> {
        self.incoming@
    }

    /// Unbound, not connected, nothing received.
    pub fn new() -> (r: Self)
        ensures
            r.spec_address() is None,
            r.spec_state() is Disconnected,
            r.spec_incoming() == Seq::<UdpDatagram>::empty(),
    {
        UdpSocketInner { address: None, state: SocketState::Disconnected, incoming: Vec::new() }
    }

    /// Records the connection state.
    pub fn set_state(&mut self, state: SocketState)
        ensures
            final(self).spec_state() == state,
            final(self).spec_address() == old(self).spec_address(),
            final(self).spec_incoming() == old(self).spec_incoming(),
    {
        self.state = state;
    }

    /// Records the address the socket is bound to.
    pub fn set_addr(&mut self, addr: SocketAddrInet)
        ensures
            final(self).spec_address() == Some(addr),
            final(self).spec_state() == old(self).spec_state(),
            final(self).spec_incoming() == old(self).spec_incoming(),
    {
        self.address = Some(addr);
    }

    /// The local port: that of the bound address, if the socket is bound.
    pub fn src_port(&self) -> (r: Option<u16>)
        ensures
            self.spec_address() matches Some(a) ==> r == Some(be_port(a.port)),
            self.spec_address() is None ==> r is None,
    {
        match &self.address {
            Some(a) => Some(a.prot()),
            None => None,
        }
    }

    /// Whether the socket is connected.
    pub fn is_connected(&self) -> (r: bool)
        ensures
            r == (self.spec_state() is Connected),
    {
        match &self.state {
            SocketState::Connected(_) => true,
            SocketState::Disconnected => false,
        }
    }

    /// The address the socket is connected to.
    pub fn dest(&self) -> (r: SocketAddrInet)
        requires
            self.spec_state() is Connected,
        ensures
            self.spec_state() matches SocketState::Connected(a) && r == a,
    {
        match &self.state {
            SocketState::Connected(addr) => *addr,
            SocketState::Disconnected => {
                proof {
                    assert(false);
                }
                SocketAddrInet { family: 0, port: [0u8; 2], sin_addr: crate::net::InAddr { addr: 0 }, padding: [0u8; 8] }
            },
        }
    }

    /// Binds the socket to `address`; returns the port to register it
    /// under.
    pub fn bind(&mut self, address: SocketAddrInet) -> (port: u16)
        ensures
            port == be_port(address.port),
            final(self).spec_address() == Some(address),
            final(self).spec_state() == old(self).spec_state(),
            final(self).spec_incoming() == old(self).spec_incoming(),
    {
        self.set_addr(address);
        address.prot()
    }

    /// Connects the socket to `address`; returns the host address (the
    /// address word's bytes, most significant first) and the port to
    /// register the connection under.
    pub fn connect(&mut self, address: SocketAddrInet) -> (r: ([u8; 4], u16))
        ensures
            r.0@ == le_bytes(address.sin_addr.addr).reverse(),
            r.1 == be_port(address.port),
            final(self).spec_state() == SocketState::Connected(address),
            final(self).spec_address() == old(self).spec_address(),
            final(self).spec_incoming() == old(self).spec_incoming(),
    {
        let a = address.sin_addr.addr;
        let host = [(a / 0x100_0000) as u8, (a / 0x1_0000 % 0x100) as u8, (a / 0x100 % 0x100) as u8, (a % 0x100) as u8];
        assert(host@ =~= le_bytes(a).reverse());
        self.set_state(SocketState::Connected(address));
        (host, address.prot())
    }

    /// Whether sending needs an ephemeral local port: the socket is not
    /// bound.
    pub fn needs_ephemeral_port(&self) -> (r: bool)
        ensures
            r == (self.spec_address() is None),
    {
        self.address.is_none()
    }

    /// The datagram that sending `data` puts on the wire. It goes to `name`
    /// if given, else to the connected address (sending unconnected without
    /// a name is unreachable in the socket, so it is left out). It comes
    /// from the bound port or, for an unbound socket, from `ephemeral`, the
    /// port just allocated for it: `WouldBlock` when none could be. Sending
    /// to `127.0.0.1` is `NotSupported`.
    pub fn plan_send(&self, name: Option<SocketAddrInet>, ephemeral: Option<u16>, data: &[u8]) -> (r: Result<UdpDatagram, FileSystemError>)
        requires
            name is Some || self.spec_state() is Connected,
        ensures
            ({
                let to = match name {
                    Some(n) => n,
                    None => self.spec_state()->Connected_0,
                };
                let src = match self.spec_address() {
                    Some(a) => Some(be_port(a.port)),
                    None => ephemeral,
                };
                let dest_ip = le_bytes(to.sin_addr.addr);
                if src is None {
                    r == Err::<UdpDatagram, FileSystemError>(FileSystemError::WouldBlock)
                } else if dest_ip == seq![127u8, 0u8, 0u8, 1u8] {
                    r == Err::<UdpDatagram, FileSystemError>(FileSystemError::NotSupported)
                } else {
                    r matches Ok(d) && {
                        &&& d.src_port == src->Some_0
                        &&& d.dest_port == be_port(to.port)
                        &&& d.dest_ip@ == dest_ip
                        &&& d.payload@ == data@
                    }
                }
            }),
    {
        let to = match name {
            Some(n) => n,
            None => self.dest(),
        };
        let dest_port = to.prot();
        let dest_ip = to.addr();
        let src_port = match self.src_port() {
            Some(p) => p,
            None => match ephemeral {
                Some(p) => p,
                None => {
                    return Err(FileSystemError::WouldBlock);
                },
            },
        };
        if dest_ip[0] == 127 && dest_ip[1] == 0 && dest_ip[2] == 0 && dest_ip[3] == 1 {
            assert(dest_ip@ =~= seq![127u8, 0u8, 0u8, 1u8]);
            return Err(FileSystemError::NotSupported);
        }
        let mut payload: Vec<u8> = Vec::new();
        let n = data.len();
        let mut i: usize = 0;
        while i < n
            invariant
                n == data@.len(),
                i <= n,
                payload@ == data@.subrange(0, i as int),
            decreases n - i,
        {
            payload.push(data[i]);
            i = i + 1;
            proof {
                assert(payload@ =~= data@.subrange(0, i as int));
            }
        }
        assert(payload@ =~= data@);
        Ok(UdpDatagram { src_port, dest_port, dest_ip, payload })
    }

    /// Takes in a datagram that arrived for this socket.
    pub fn deliver(&mut self, packet: UdpDatagram)
        ensures
            final(self).spec_incoming() == old(self).spec_incoming().push(packet),
            final(self).spec_address() == old(self).spec_address(),
            final(self).spec_state() == old(self).spec_state(),
    {
        self.incoming.push(packet);
    }

    /// Whether a receive must fail with `WouldBlock` instead of waiting:
    /// nothing has arrived and the socket does not block.
    pub fn recv_would_block(&self, non_block: bool) -> (r: bool)
        ensures
            r == (self.spec_incoming().len() == 0 && non_block),
    {
        self.incoming.len() == 0 && non_block
    }

    /// Takes the datagram that arrived last, if any (the socket reads the
    /// newest datagram first).
    pub fn take_incoming(&mut self) -> (r: Option<UdpDatagram>)
        ensures
            final(self).spec_address() == old(self).spec_address(),
            final(self).spec_state() == old(self).spec_state(),
            old(self).spec_incoming().len() > 0 ==> r == Some(old(self).spec_incoming().last())
                && final(self).spec_incoming() == old(self).spec_incoming().drop_last(),
            old(self).spec_incoming().len() == 0 ==> r is None && final(self).spec_incoming() == old(self).spec_incoming(),
    {
        let r = self.incoming.pop();
        proof {
            if old(self).spec_incoming().len() > 0 {
                assert(self.incoming@ =~= old(self).spec_incoming().drop_last());
            }
        }
        r
    }

    /// Readiness: always writable; readable when a datagram waits.
    pub fn poll(&self) -> (events: u16)
        ensures
            events == if self.spec_incoming().len() > 0 { POLL_OUT | POLL_IN } else { POLL_OUT },
    {
        if self.incoming.len() > 0 {
            POLL_OUT | POLL_IN
        } else {
            POLL_OUT
        }
    }
}

/// Interface control: get the interface index.
pub const SIOCGIFINDEX: usize = 0x8933;
/// Interface control: get the hardware (MAC) address.
pub const SIOCGIFHWADDR: usize = 0x8927;
/// Interface control: set the IPv4 address.
pub const SIOCSIFADDR: usize = 0x8916;
/// Interface control: set the subnet mask.
pub const SIOCSIFNETMASK: usize = 0x891c;

/// What an interface control request asks the device layer to do.
#[derive(Debug, Clone, Copy)]
pub enum IoctlAction {
    /// Report this interface index in the request.
    SetIfIndex(i32),
    /// Copy the device's MAC address into the request.
    CopyMacAddress,
    /// Give the device this IPv4 address.
    SetIp([u8; 4]),
    /// Give the device this subnet mask.
    SetSubnetMask([u8; 4]),
}

/// The only interface there is.
pub open spec fn is_eth0(name: Seq<u8>) -> bool {
    name == seq![0x65u8, 0x74u8, 0x68u8, 0x30u8]
}

/// Whether `name` is the interface name `eth0`.
pub fn is_eth0_name(name: &[u8]) -> (r: bool)
    ensures
        r == is_eth0(name@),
{
    if name.len() != 4 {
        return false;
    }
    let r = name[0] == 0x65 && name[1] == 0x74 && name[2] == 0x68 && name[3] == 0x30;
    proof {
        if r {
            assert(name@ =~= seq![0x65u8, 0x74u8, 0x68u8, 0x30u8]);
        }
    }
    r
}

/// The decision of a UDP socket's `ioctl` once the request was read from
/// user memory: `name` is the interface name in the request, if it has a
/// valid one, and `inet` the IPv4 address in it, if it holds one. Getting
/// the index needs a name; getting the MAC address needs a name
/// (`InvalidPath` without); setting the address or the mask needs an IPv4
/// address (`NotSupported` without), then a name (`InvalidPath` without).
/// The socket asserts that the name is `eth0` and that the command is one
/// of these four, so other inputs are left out.
pub fn ioctl_action(command: usize, name: Option<&[u8]>, inet: Option<SocketAddrInet>) -> (r: Result<IoctlAction, FileSystemError>)
    requires
        command == SIOCGIFINDEX || command == SIOCGIFHWADDR || command == SIOCSIFADDR || command == SIOCSIFNETMASK,
        command == SIOCGIFINDEX ==> (name matches Some(n) && is_eth0(n@)),
        command == SIOCGIFHWADDR ==> (name matches Some(n) ==> is_eth0(n@)),
        command == SIOCSIFADDR || command == SIOCSIFNETMASK ==> (inet is Some && name is Some ==> is_eth0(name->Some_0@)),
    ensures
        command == SIOCGIFINDEX ==> r == Ok::<IoctlAction, FileSystemError>(IoctlAction::SetIfIndex(1)),
        command == SIOCGIFHWADDR ==> r == if name is Some {
            Ok::<IoctlAction, FileSystemError>(IoctlAction::CopyMacAddress)
        } else {
            Err(FileSystemError::InvalidPath)
        },
        command == SIOCSIFADDR || command == SIOCSIFNETMASK ==> {
            if inet is None {
                r == Err::<IoctlAction, FileSystemError>(FileSystemError::NotSupported)
            } else if name is None {
                r == Err::<IoctlAction, FileSystemError>(FileSystemError::InvalidPath)
            } else {
                r matches Ok(a) && if command == SIOCSIFADDR {
                    a matches IoctlAction::SetIp(ip) && ip@ == le_bytes(inet->Some_0.sin_addr.addr)
                } else {
                    a matches IoctlAction::SetSubnetMask(ip) && ip@ == le_bytes(inet->Some_0.sin_addr.addr)
                }
            }
        },
{
    if command == SIOCGIFINDEX {
        return Ok(IoctlAction::SetIfIndex(1));
    }
    if command == SIOCGIFHWADDR {
        return match name {
            Some(_) => Ok(IoctlAction::CopyMacAddress),
            None => Err(FileSystemError::InvalidPath),
        };
    }
    let socket = match inet {
        Some(a) => a,
        None => {
            return Err(FileSystemError::NotSupported);
        },
    };
    match name {
        Some(_) => {},
        None => {
            return Err(FileSystemError::InvalidPath);
        },
    }
    if command == SIOCSIFADDR {
        Ok(IoctlAction::SetIp(socket.addr()))
    } else {
        Ok(IoctlAction::SetSubnetMask(socket.addr()))
    }
}



} // verus!
