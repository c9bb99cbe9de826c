use hurricane::net::tcp::{ack_len, TcpData, TcpSegment, TcpState, Stream, MAX_MTU, TCP_ACK, TCP_FIN, TCP_SYN};
use hurricane::net::udp::{ioctl_action, is_eth0_name, IoctlAction, SocketState, UdpDatagram, UdpSocketInner, SIOCGIFHWADDR, SIOCGIFINDEX, SIOCSIFADDR, SIOCSIFNETMASK};
use hurricane::net::unix::{accept_address, path_from_unix_sock, read_would_block, AcceptQueue, Message, MessageQueue, UnixSocketInner, UnixSocketState, SOCKADDR_UN_SIZE};
use hurricane::net::{FileSystemError, InAddr, IoVec, IpProtocol, SocketAddrInet, SocketAddrUnix, SocketType, SyscallError, AF_UNIX, POLL_IN, POLL_OUT};

fn inet(addr: [u8; 4], port: u16) -> SocketAddrInet {
    SocketAddrInet { family: 1, port: port.to_be_bytes(), sin_addr: InAddr { addr: u32::from_le_bytes(addr) }, padding: [0; 8] }
}

fn segment(seq: u32, flags: u16, payload: &[u8]) -> TcpSegment {
    TcpSegment { src_port: 80, dest_port: 5000, target: [10, 0, 0, 1], sequence_number: seq, ack_number: 0, window: 100, flags, payload: payload.to_vec() }
}

#[test]
fn stream_is_fifo() {
    let mut s = Stream::new();
    assert!(s.is_empty());
    s.write(b"hello ");
    s.write(b"world");
    let mut buf = [0u8; 4];
    assert_eq!(s.read(&mut buf), 4);
    assert_eq!(&buf, b"hell");
    let mut big = [9u8; 20];
    assert_eq!(s.read(&mut big), 7);
    assert_eq!(&big[..7], b"o world");
    assert_eq!(big[7], 9);
    assert!(s.is_empty());
    assert_eq!(s.read(&mut big), 0);
}

#[test]
fn ack_len_counts_syn_and_fin() {
    assert_eq!(ack_len(&segment(0, 0, b"abc")), 3);
    assert_eq!(ack_len(&segment(0, TCP_SYN, b"")), 1);
    assert_eq!(ack_len(&segment(0, TCP_SYN | TCP_FIN, b"ab")), 4);
}

#[test]
fn tcp_handshake() {
    let mut d = TcpData::new();
    assert_eq!(d.poll(), 0);
    let syn = d.connect(5000, 80, [10, 0, 0, 1]);
    assert_eq!(syn.flags, TCP_SYN);
    assert_eq!(syn.sequence_number, 0);
    assert_eq!((syn.src_port, syn.dest_port, syn.target), (5000, 80, [10, 0, 0, 1]));
    assert_eq!(syn.window, u16::MAX);
    assert!(syn.payload.is_empty());
    assert!(!d.is_established());
    let ack = d.recv(segment(700, TCP_SYN | TCP_ACK, b"")).expect("handshake is acknowledged");
    assert!(d.is_established());
    assert_eq!(ack.ack_number, 701);
    assert_eq!(ack.sequence_number, 1);
    assert_eq!(ack.flags, 0);
    assert_eq!(d.poll(), POLL_OUT);
}

#[test]
fn tcp_receives_data_and_acknowledges() {
    let mut d = TcpData::new();
    d.connect(5000, 80, [10, 0, 0, 1]);
    d.recv(segment(700, TCP_SYN | TCP_ACK, b""));
    let ack = d.recv(segment(701, TCP_ACK, b"payload")).expect("data is acknowledged");
    assert_eq!(ack.ack_number, 708);
    assert_eq!(d.poll(), POLL_OUT | POLL_IN);
    // an empty segment without FIN needs no answer
    assert!(d.recv(segment(708, TCP_ACK, b"")).is_none());
    assert!(!d.stream_is_empty());
    let mut buf = [0u8; 16];
    assert_eq!(d.read(&mut buf), 7);
    assert_eq!(&buf[..7], b"payload");
    assert!(d.stream_is_empty());
}

#[test]
fn tcp_sequence_numbers_wrap() {
    let mut d = TcpData::new();
    d.connect(1, 2, [1, 2, 3, 4]);
    let ack = d.recv(segment(u32::MAX, TCP_SYN | TCP_ACK, b"")).unwrap();
    assert_eq!(ack.ack_number, 0);
}

#[test]
fn tcp_send_cuts_data_into_segments() {
    let mut d = TcpData::new();
    d.connect(5000, 80, [10, 0, 0, 1]);
    let data: Vec<u8> = (0..(2 * MAX_MTU + 100)).map(|i| (i % 251) as u8).collect();
    let segs = d.send_data(&data);
    assert_eq!(segs.len(), 3);
    assert_eq!(segs[0].payload.len(), MAX_MTU);
    assert_eq!(segs[1].payload.len(), MAX_MTU);
    assert_eq!(segs[2].payload.len(), 100);
    assert_eq!(segs[0].sequence_number, 1);
    assert_eq!(segs[1].sequence_number, 1 + MAX_MTU as u32);
    assert_eq!(segs[2].sequence_number, 1 + 2 * MAX_MTU as u32);
    let joined: Vec<u8> = segs.iter().flat_map(|s| s.payload.clone()).collect();
    assert_eq!(joined, data);
    assert!(d.send_data(&[]).is_empty());
    let next = d.send_data(b"x");
    assert_eq!(next[0].sequence_number, 1 + data.len() as u32);
}

#[test]
fn tcp_make_packet_fields() {
    let d = TcpData::new();
    let p = d.make_packet(3, TCP_FIN);
    assert_eq!(p.payload, vec![0, 0, 0]);
    assert_eq!(p.flags, TCP_FIN);
    assert_eq!(p.ack_number, 0);
    let a = d.make_ack_packet(2);
    assert_eq!(a.flags, 0);
    assert_eq!(a.payload.len(), 2);
    let mut d = TcpData::new();
    let sent = d.send_packet(segment(0, TCP_FIN, b"ab"));
    assert_eq!(sent.payload, b"ab".to_vec());
    let syn = d.send_sync();
    assert_eq!(syn.sequence_number, 3);
}

#[test]
fn message_queue_keeps_message_boundaries() {
    let mut q = MessageQueue::new();
    assert!(q.is_empty());
    q.write(b"first");
    q.write(b"second");
    let mut buf = [0u8; 3];
    assert_eq!(q.read(&mut buf), 3);
    assert_eq!(&buf, b"fir");
    let mut buf = [0u8; 10];
    assert_eq!(q.read(&mut buf), 2);
    assert_eq!(&buf[..2], b"st");
    assert_eq!(q.read(&mut buf), 6);
    assert_eq!(&buf[..6], b"second");
    assert!(q.is_empty());
    assert!(read_would_block(&q, true));
    assert!(!read_would_block(&q, false));
    let _m = Message::new(vec![1, 2, 3]);
}

#[test]
fn accept_queue_respects_backlog() {
    let mut q: AcceptQueue<u32> = AcceptQueue::new(2);
    assert!(q.is_empty());
    assert_eq!(q.push(1), Ok(()));
    assert_eq!(q.push(2), Ok(()));
    assert_eq!(q.push(3), Err(SyscallError::EAGAIN));
    assert_eq!(q.set_backlog(1), Err(SyscallError::EINVAL));
    assert_eq!(q.pop(), Some(1));
    assert_eq!(q.set_backlog(1), Ok(()));
    assert_eq!(q.push(4), Err(SyscallError::EAGAIN));
    assert_eq!(q.pop(), Some(2));
    assert_eq!(q.pop(), None);
}

#[test]
fn unix_listen_accept_and_poll() {
    let mut inner: UnixSocketInner<u32> = UnixSocketInner::new();
    assert_eq!(inner.poll(true), POLL_OUT);
    assert_eq!(inner.poll(false), POLL_OUT | POLL_IN);
    assert_eq!(inner.pop_pending(), Err(FileSystemError::ConnectionRefused));
    assert_eq!(inner.push_pending(1), Err(FileSystemError::ConnectionRefused));
    inner.address = Some(SocketAddrUnix::default());
    assert_eq!(inner.listen(1), Ok(()));
    assert!(!inner.has_pending());
    assert_eq!(inner.push_pending(7), Ok(()));
    assert!(inner.has_pending());
    assert_eq!(inner.poll(true), POLL_OUT | POLL_IN);
    assert_eq!(inner.listen(0), Err(SyscallError::EINVAL));
    assert_eq!(inner.pop_pending(), Ok(Some(7)));
    assert_eq!(inner.pop_pending(), Ok(None));
    assert_eq!(inner.peer().err(), Some(FileSystemError::NotConnected));
    inner.state = UnixSocketState::Connected(9);
    assert!(inner.state.is_connected());
    assert_eq!(inner.peer(), Ok(&9));
    assert_eq!(inner.recv_ready(true, true).err(), Some(FileSystemError::WouldBlock));
    assert_eq!(inner.recv_ready(true, false), Ok(&9));
}

#[test]
fn unix_accept_address() {
    let mut named = SocketAddrUnix::default();
    named.path[0] = b'/';
    let (a, len) = accept_address(Some(named));
    assert_eq!(a.path[0], b'/');
    assert_eq!(len, SOCKADDR_UN_SIZE);
    let (b, _) = accept_address(None);
    assert_eq!(b.family, AF_UNIX);
    assert_eq!(b.path, [0u8; 108]);
}

#[test]
fn unix_socket_paths() {
    let mut addr = SocketAddrUnix::default();
    addr.path[..9].copy_from_slice(b"/tmp/sock");
    assert_eq!(path_from_unix_sock(&addr), Ok("/tmp/sock"));
    addr.path[3] = 0xff;
    assert_eq!(path_from_unix_sock(&addr), Err(FileSystemError::InvalidPath));
    let mut full = SocketAddrUnix::default();
    full.path = [b'a'; 108];
    assert_eq!(path_from_unix_sock(&full).map(|s| s.len()), Ok(108));
}

#[test]
fn inet_address_accessors() {
    let a = inet([192, 168, 1, 2], 8080);
    assert_eq!(a.addr(), [192, 168, 1, 2]);
    assert_eq!(a.prot(), 8080);
    assert_eq!(IpProtocol::Udp.number(), 6);
    assert_eq!(IpProtocol::Sctp.number(), 132);
    assert_eq!(IpProtocol::Max.number(), 256);
    assert_eq!(SocketType::Stream.number(), 4);
    assert_eq!(IoVec { base: 0x1000, len: 12 }.len(), 12);
}

#[test]
fn udp_send_plans() {
    let mut s = UdpSocketInner::new();
    assert!(s.needs_ephemeral_port());
    let to = inet([10, 0, 0, 2], 53);
    let d = s.plan_send(Some(to), Some(40000), b"query").unwrap();
    assert_eq!((d.src_port, d.dest_port, d.dest_ip), (40000, 53, [10, 0, 0, 2]));
    assert_eq!(d.payload, b"query".to_vec());
    assert_eq!(s.plan_send(Some(to), None, b"q").err(), Some(FileSystemError::WouldBlock));
    assert_eq!(s.plan_send(Some(inet([127, 0, 0, 1], 53)), Some(1), b"q").err(), Some(FileSystemError::NotSupported));
    assert_eq!(s.bind(inet([0, 0, 0, 0], 1234)), 1234);
    assert_eq!(s.src_port(), Some(1234));
    let (host, port) = s.connect(to);
    assert_eq!(host, [2, 0, 0, 10]);
    assert_eq!(port, 53);
    let d = s.plan_send(None, None, b"x").unwrap();
    assert_eq!((d.src_port, d.dest_port), (1234, 53));
    assert_eq!(s.dest().prot(), 53);
    s.set_state(SocketState::Disconnected);
    s.set_addr(inet([0, 0, 0, 0], 99));
    assert_eq!(s.src_port(), Some(99));
}

#[test]
fn udp_receives_newest_first() {
    let mut s = UdpSocketInner::new();
    assert!(s.recv_would_block(true));
    assert_eq!(s.poll(), POLL_OUT);
    s.deliver(UdpDatagram { src_port: 1, dest_port: 2, dest_ip: [0; 4], payload: vec![1] });
    s.deliver(UdpDatagram { src_port: 1, dest_port: 2, dest_ip: [0; 4], payload: vec![2] });
    assert!(!s.recv_would_block(true));
    assert_eq!(s.poll(), POLL_OUT | POLL_IN);
    assert_eq!(s.take_incoming().unwrap().payload, vec![2]);
    assert_eq!(s.take_incoming().unwrap().payload, vec![1]);
    assert!(s.take_incoming().is_none());
}

#[test]
fn udp_ioctl_decisions() {
    let eth0: &[u8] = b"eth0";
    assert!(is_eth0_name(eth0));
    assert!(!is_eth0_name(b"eth1"));
    assert!(matches!(ioctl_action(SIOCGIFINDEX, Some(eth0), None), Ok(IoctlAction::SetIfIndex(1))));
    assert!(matches!(ioctl_action(SIOCGIFHWADDR, Some(eth0), None), Ok(IoctlAction::CopyMacAddress)));
    assert!(matches!(ioctl_action(SIOCGIFHWADDR, None, None), Err(FileSystemError::InvalidPath)));
    let a = inet([10, 0, 2, 15], 0);
    assert!(matches!(ioctl_action(SIOCSIFADDR, Some(eth0), Some(a)), Ok(IoctlAction::SetIp([10, 0, 2, 15]))));
    assert!(matches!(ioctl_action(SIOCSIFNETMASK, Some(eth0), Some(inet([255, 255, 255, 0], 0))), Ok(IoctlAction::SetSubnetMask([255, 255, 255, 0]))));
    assert!(matches!(ioctl_action(SIOCSIFADDR, Some(eth0), None), Err(FileSystemError::NotSupported)));
    assert!(matches!(ioctl_action(SIOCSIFADDR, None, Some(a)), Err(FileSystemError::InvalidPath)));
}

#[test]
fn tcp_state_default_is_closed() {
    let d = TcpData::new();
    assert!(!d.is_established());
    assert_eq!(TcpState::Closed, TcpState::Closed);
}

#[test]
fn scatter_fills_vectors_in_turn() {
    let data = [1u8, 2, 3, 4, 5];
    let (parts, n) = hurricane::net::scatter(&data, &[2, 0, 2, 4]);
    assert_eq!(parts, vec![vec![1, 2], vec![], vec![3, 4], vec![5]]);
    assert_eq!(n, 5);
    let (parts, n) = hurricane::net::scatter(&data, &[3]);
    assert_eq!(parts, vec![vec![1, 2, 3]]);
    assert_eq!(n, 3);
    let (parts, n) = hurricane::net::scatter(&[], &[4, 4]);
    assert_eq!(parts, vec![Vec::<u8>::new(), Vec::new()]);
    assert_eq!(n, 0);
}

#[test]
fn refused_connection_leaves_target_as_it_was() {
    let mut inner: UnixSocketInner<u32> = UnixSocketInner::new();
    inner.state = UnixSocketState::Connected(9);
    assert_eq!(inner.push_pending(1), Err(FileSystemError::ConnectionRefused));
    assert_eq!(inner.pop_pending(), Err(FileSystemError::ConnectionRefused));
    assert!(matches!(inner.state, UnixSocketState::Connected(9)));
}
