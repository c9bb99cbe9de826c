use vstd::prelude::*;
use std::collections::VecDeque;
use vstd::utf8::{decode_utf8, valid_utf8};
use crate::net::{FileSystemError, SocketAddrUnix, SyscallError, AF_UNIX, POLL_IN, POLL_OUT};

verus! {

/// One message written to a Unix socket.
#[derive(Debug)]
pub struct Message {
    data: Vec<u8>,
}

impl Message {
    /// The bytes of the message.
    pub closed spec fn view(&self) -> Seq<u8> {
        self.data@
    }

    /// A message holding `data`.
    pub fn new(data: Vec<u8>) -> (m: Self)
        ensures
            m@ == data@,
    {
        Self { data }
    }
}

/// The messages written to a Unix socket and not yet read, oldest first.
pub struct MessageQueue {
    messages: VecDeque<Message>,
}

impl MessageQueue {
    /// The waiting messages' bytes, oldest message first.
    pub closed spec fn view(&self) -> Seq<Seq<u8>> {
        Seq::new(self.messages@.len(), |i: int| self.messages@[i]@)
    }

    /// An empty queue.
    pub fn new() -> (q: Self)
        ensures
            q@ == Seq::<Seq<u8>>::empty(),
    {
        MessageQueue { messages: VecDeque::new() }
    }

    /// Whether no message is waiting.
    pub fn is_empty(&self) -> (r: bool)
        ensures
            r == (self@.len() == 0),
    {
        self.messages.len() == 0
    }

    /// Reads from the oldest message into `buffer`, as many bytes as fit;
    /// returns how many. The message leaves the queue once it is read to
    /// its end; otherwise its first bytes are gone and the rest waits. The
    /// rest of `buffer` is left as it was.
    pub fn read(&mut self, buffer: &mut [u8]) -> (size: usize)
        requires
            old(self)@.len() > 0,
        ensures
            ({
                let m = old(self)@[0];
                &&& size == if old(buffer)@.len() < m.len() { old(buffer)@.len() } else { m.len() }
                &&& final(buffer)@ == m.subrange(0, size as int) + old(buffer)@.subrange(size as int, old(buffer)@.len() as int)
                &&& final(self)@ == if size < m.len() {
                    old(self)@.update(0, m.subrange(size as int, m.len() as int))
                } else {
                    old(self)@.drop_first()
                }
            }),
    {
        let ghost q0 = self.messages@;
        let message = match self.messages.pop_front() {
            Some(message) => message,
            None => {
                return 0;
            },
        };
        let ghost m = message@;
        let message_len = message.data.len();
        let size = if buffer.len() < message_len { buffer.len() } else { message_len };
        let mut i: usize = 0;
        while i < size
            invariant
                size <= buffer@.len(),
                size <= message.data@.len(),
                m == message.data@,
                buffer@.len() == old(buffer)@.len(),
                i <= size,
                buffer@ == m.subrange(0, i as int) + old(buffer)@.subrange(i as int, old(buffer)@.len() as int),
            decreases size - i,
        {
            buffer[i] = message.data[i];
            i = i + 1;
            proof {
                assert(buffer@ =~= m.subrange(0, i as int) + old(buffer)@.subrange(i as int, old(buffer)@.len() as int));
            }
        }
        if size < message_len {
            let mut rest: Vec<u8> = Vec::new();
            let mut k: usize = size;
            while k < message_len
                invariant
                    size <= k <= message_len,
                    message_len == m.len(),
                    m == message.data@,
                    rest@ == m.subrange(size as int, k as int),
                decreases message_len - k,
            {
                rest.push(message.data[k]);
                k = k + 1;
                proof {
                    assert(rest@ =~= m.subrange(size as int, k as int));
                }
            }
            self.messages.push_front(Message::new(rest));
            proof {
                assert(self@ =~= old(self)@.update(0, m.subrange(size as int, m.len() as int)));
            }
            return size;
        }
        proof {
            assert(self@ =~= old(self)@.drop_first());
        }
        size
    }

    /// Appends a message holding a copy of `buffer`.
    pub fn write(&mut self, buffer: &[u8])
        ensures
            final(self)@ == old(self)@.push(buffer@),
    {
        let mut data: Vec<u8> = Vec::new();
        let n = buffer.len();
        let mut i: usize = 0;
        while i < n
            invariant
                n == buffer@.len(),
                i <= n,
                data@ == buffer@.subrange(0, i as int),
            decreases n - i,
        {
            data.push(buffer[i]);
            i = i + 1;
            proof {
                assert(data@ =~= buffer@.subrange(0, i as int));
            }
        }
        proof {
            assert(data@ =~= buffer@);
        }
        self.messages.push_back(Message::new(data));
        proof {
            assert(self@ =~= old(self)@.push(buffer@));
        }
    }
}

/// Connections waiting to be accepted on a listening Unix socket, oldest
/// first, and how many may wait.
pub struct AcceptQueue<S> {
    sockets: VecDeque<S>,
    backlog: usize,
}

impl<S> AcceptQueue<S> {
    /// The waiting connections, oldest first.
    pub closed spec fn view(&self) -> Seq<S> {
        self.sockets@
    }

    /// How many connections may wait.
    pub closed spec fn spec_backlog(&self) -> usize {
        self.backlog
    }

    /// No more connections wait than the backlog allows.
    #[verifier::type_invariant]
    spec fn wf(self) -> bool {
        self.sockets@.len() <= self.backlog
    }

    /// An empty queue that holds at most `backlog` connections.
    pub fn new(backlog: usize) -> (q: Self)
        ensures
            q@ == Seq::<S>::empty(),
            q.spec_backlog() == backlog,
    {
        Self { sockets: VecDeque::with_capacity(backlog), backlog }
    }

    /// How many connections are waiting: never more than the backlog.
    pub fn len(&self) -> (r: usize)
        ensures
            r == self@.len(),
            r <= self.spec_backlog(),
    {
        proof {
            use_type_invariant(self);
        }
        self.sockets.len()
    }

    /// How many connections may wait.
    pub fn backlog(&self) -> (r: usize)
        ensures
            r == self.spec_backlog(),
    {
        self.backlog
    }

    /// Whether no connection is waiting.
    pub fn is_empty(&self) -> (r: bool)
        ensures
            r == (self@.len() == 0),
    {
        self.sockets.len() == 0
    }

    /// Adds `socket` at the end of the queue; `EAGAIN` if the queue is full.
    pub fn push(&mut self, socket: S) -> (r: Result<(), SyscallError>)
        ensures
            final(self).spec_backlog() == old(self).spec_backlog(),
            push_step(old(self)@, old(self).spec_backlog() as nat, socket, r is Ok, final(self)@),
            r is Err ==> r == Err::<(), SyscallError>(SyscallError::EAGAIN),
    {
        proof {
            use_type_invariant(&*self);
        }
        if self.backlog == self.sockets.len() {
            return Err(SyscallError::EAGAIN);
        }
        let mut sockets: VecDeque<S> = VecDeque::new();
        core::mem::swap(&mut sockets, &mut self.sockets);
        sockets.push_back(socket);
        self.sockets = sockets;
        Ok(())
    }

    /// Removes and returns the oldest waiting connection, if any.
    pub fn pop(&mut self) -> (r: Option<S>)
        ensures
            final(self).spec_backlog() == old(self).spec_backlog(),
            old(self)@.len() > 0 ==> r == Some(old(self)@[0]) && final(self)@ == old(self)@.drop_first(),
            old(self)@.len() == 0 ==> r is None && final(self)@ == old(self)@,
    {
        proof {
            use_type_invariant(&*self);
        }
        let mut sockets: VecDeque<S> = VecDeque::new();
        core::mem::swap(&mut sockets, &mut self.sockets);
        let r = sockets.pop_front();
        self.sockets = sockets;
        proof {
            if old(self)@.len() > 0 {
                assert(self@ =~= old(self)@.drop_first());
            }
        }
        r
    }

    /// Lets at most `backlog` connections wait; `EINVAL`, changing nothing,
    /// if more than that already wait.
    pub fn set_backlog(&mut self, backlog: usize) -> (r: Result<(), SyscallError>)
        ensures
            final(self)@ == old(self)@,
            backlog < old(self)@.len() ==> r == Err::<(), SyscallError>(SyscallError::EINVAL) && final(self).spec_backlog() == old(self).spec_backlog(),
            backlog >= old(self)@.len() ==> r is Ok && final(self).spec_backlog() == backlog,
    {
        proof {
            use_type_invariant(&*self);
        }
        if backlog < self.sockets.len() {
            return Err(SyscallError::EINVAL);
        }
        self.backlog = backlog;
        Ok(())
    }
}

/// Where a Unix socket stands; `S` stands for the peer sockets.
pub enum UnixSocketState<S> {
    /// Not connected.
    Disconnected,
    /// Listening for connections.
    Listening(AcceptQueue<S>),
    /// Connected to a peer.
    Connected(S),
}

impl<S> UnixSocketState<S> {
    /// Whether the socket is connected.
    pub fn is_connected(&self) -> (r: bool)
        ensures
            r == (self is Connected),
    {
        match self {
            UnixSocketState::Connected(_) => true,
            _ => false,
        }
    }
}

/// The part of a Unix socket that its lock guards: the address it is bound
/// to and where it stands.
pub struct UnixSocketInner<S> {
    pub address: Option<SocketAddrUnix>,
    pub state: UnixSocketState<S>,
}

impl<S> UnixSocketInner<S> {
    /// Unbound and not connected.
    pub fn new() -> (r: Self)
        ensures
            r.address is None,
            r.state is Disconnected,
    {
        UnixSocketInner { address: None, state: UnixSocketState::Disconnected }
    }

    /// Starts listening with room for `backlog` pending connections, or
    /// changes the room of a listening socket (`EINVAL` if more are already
    /// waiting). Only a bound socket that is not connected, or a listening
    /// one, may listen.
    pub fn listen(&mut self, backlog: usize) -> (r: Result<(), SyscallError>)
        requires
            (old(self).state is Disconnected && old(self).address is Some) || old(self).state is Listening,
        ensures
            final(self).address == old(self).address,
            old(self).state is Disconnected ==> r is Ok && (final(self).state matches UnixSocketState::Listening(q) && q@.len() == 0 && q.spec_backlog() == backlog),
            old(self).state matches UnixSocketState::Listening(q0) ==> final(self).state matches UnixSocketState::Listening(q) && {
                &&& q@ == q0@
                &&& backlog < q0@.len() ==> r == Err::<(), SyscallError>(SyscallError::EINVAL) && q.spec_backlog() == q0.spec_backlog()
                &&& backlog >= q0@.len() ==> r is Ok && q.spec_backlog() == backlog
            },
    {
        let mut state = UnixSocketState::Disconnected;
        core::mem::swap(&mut state, &mut self.state);
        match state {
            UnixSocketState::Disconnected => {
                self.state = UnixSocketState::Listening(AcceptQueue::new(backlog));
                Ok(())
            },
            UnixSocketState::Listening(mut queue) => {
                let r = queue.set_backlog(backlog);
                self.state = UnixSocketState::Listening(queue);
                r
            },
            UnixSocketState::Connected(peer) => {
                self.state = UnixSocketState::Connected(peer);
                Ok(())
            },
        }
    }

    /// Whether a listening socket's queue is full, so that queuing another
    /// connection would fail.
    pub fn pending_full(&self) -> (r: bool)
        ensures
            r == (self.state matches UnixSocketState::Listening(q) && q@.len() >= q.spec_backlog()),
    {
        match &self.state {
            UnixSocketState::Listening(q) => q.len() >= q.backlog(),
            _ => false,
        }
    }

    /// Whether `accept` can go on: the socket listens and a connection is
    /// waiting.
    pub fn has_pending(&self) -> (r: bool)
        ensures
            r == (self.state matches UnixSocketState::Listening(q) && q@.len() > 0),
    {
        match &self.state {
            UnixSocketState::Listening(q) => !q.is_empty(),
            _ => false,
        }
    }

    /// Takes the oldest waiting connection of a listening socket;
    /// `ConnectionRefused` when the socket does not listen, `None` when it
    /// listens but nothing waits.
    pub fn pop_pending(&mut self) -> (r: Result<Option<S>, FileSystemError>)
        ensures
            final(self).address == old(self).address,
            old(self).state !is Listening ==> r == Err::<Option<S>, FileSystemError>(FileSystemError::ConnectionRefused)
                && final(self).state == old(self).state,
            old(self).state matches UnixSocketState::Listening(q0) ==> final(self).state matches UnixSocketState::Listening(q) && {
                &&& q.spec_backlog() == q0.spec_backlog()
                &&& q0@.len() > 0 ==> r == Ok::<Option<S>, FileSystemError>(Some(q0@[0])) && q@ == q0@.drop_first()
                &&& q0@.len() == 0 ==> r == Ok::<Option<S>, FileSystemError>(None) && q@ == q0@
            },
    {
        let mut state = UnixSocketState::Disconnected;
        core::mem::swap(&mut state, &mut self.state);
        match state {
            UnixSocketState::Listening(mut queue) => {
                let r = queue.pop();
                self.state = UnixSocketState::Listening(queue);
                Ok(r)
            },
            other => {
                self.state = other;
                Err(FileSystemError::ConnectionRefused)
            },
        }
    }

    /// Queues `socket` on this listening socket, as `connect` does to its
    /// target: `ConnectionRefused` when the socket does not listen. A full
    /// queue panics in `connect`, so it is left out.
    pub fn push_pending(&mut self, socket: S) -> (r: Result<(), FileSystemError>)
        requires
            old(self).state matches UnixSocketState::Listening(q) ==> q@.len() < q.spec_backlog(),
        ensures
            final(self).address == old(self).address,
            old(self).state !is Listening ==> r == Err::<(), FileSystemError>(FileSystemError::ConnectionRefused)
                && final(self).state == old(self).state,
            old(self).state matches UnixSocketState::Listening(q0) ==> r is Ok && (final(self).state matches UnixSocketState::Listening(q) && {
                &&& q.spec_backlog() == q0.spec_backlog()
                &&& q@ == q0@.push(socket)
            }),
    {
        let mut state = UnixSocketState::Disconnected;
        core::mem::swap(&mut state, &mut self.state);
        match state {
            UnixSocketState::Listening(mut queue) => {
                let _ = queue.push(socket);
                self.state = UnixSocketState::Listening(queue);
                Ok(())
            },
            other => {
                self.state = other;
                Err(FileSystemError::ConnectionRefused)
            },
        }
    }

    /// The peer of a connected socket, where `write` sends; `NotConnected`
    /// otherwise.
    pub fn peer(&self) -> (r: Result<&S, FileSystemError>)
        ensures
            self.state matches UnixSocketState::Connected(p) ==> r == Ok::<&S, FileSystemError>(&p),
            self.state !is Connected ==> r == Err::<&S, FileSystemError>(FileSystemError::NotConnected),
    {
        match &self.state {
            UnixSocketState::Connected(p) => Ok(p),
            _ => Err(FileSystemError::NotConnected),
        }
    }

    /// Whether `recv` can go on to wait for a message (`flags` must be
    /// empty: the socket asserts it): the peer when connected;
    /// `NotConnected` if not; `WouldBlock` when no message waits
    /// (`buffer_empty`) and the socket does not block.
    pub fn recv_ready(&self, buffer_empty: bool, non_block: bool) -> (r: Result<&S, FileSystemError>)
        ensures
            self.state !is Connected ==> r == Err::<&S, FileSystemError>(FileSystemError::NotConnected),
            self.state matches UnixSocketState::Connected(p) ==> r == if buffer_empty && non_block {
                Err::<&S, FileSystemError>(FileSystemError::WouldBlock)
            } else {
                Ok(&p)
            },
    {
        let peer = self.peer();
        match peer {
            Ok(p) => {
                if buffer_empty && non_block {
                    Err(FileSystemError::WouldBlock)
                } else {
                    Ok(p)
                }
            },
            Err(e) => Err(e),
        }
    }

    /// Readiness: always writable; readable when the socket listens and a
    /// connection waits, or when a message waits in its buffer
    /// (`buffer_empty` says whether none does).
    pub fn poll(&self, buffer_empty: bool) -> (events: u16)
        ensures
            events == if (self.state matches UnixSocketState::Listening(q) && q@.len() > 0) || !buffer_empty {
                POLL_OUT | POLL_IN
            } else {
                POLL_OUT
            },
    {
        if self.has_pending() {
            return POLL_OUT | POLL_IN;
        }
        if !buffer_empty {
            POLL_OUT | POLL_IN
        } else {
            POLL_OUT
        }
    }
}

/// Whether a read must fail with `WouldBlock` instead of waiting: no
/// message waits and the socket does not block.
pub fn read_would_block(buffer: &MessageQueue, non_block: bool) -> (r: bool)
    ensures
        r == (buffer@.len() == 0 && non_block),
{
    buffer.is_empty() && non_block
}

/// Size in bytes of a Unix socket address in memory: the family and the
/// 108 bytes of path.
pub const SOCKADDR_UN_SIZE: u32 = 112;

/// The address that `accept` reports for a new connection, with its size:
/// the peer's bound address, or an unnamed Unix address if the peer is not
/// bound.
pub fn accept_address(peer_address: Option<SocketAddrUnix>) -> (r: (SocketAddrUnix, u32))
    ensures
        r.1 == SOCKADDR_UN_SIZE,
        peer_address matches Some(a) ==> r.0 == a,
        peer_address is None ==> r.0.family == AF_UNIX && forall|i: int| 0 <= i < 108 ==> r.0.path@[i] == 0u8,
{
    match peer_address {
        Some(a) => (a, SOCKADDR_UN_SIZE),
        None => {
            let mut a = SocketAddrUnix::default();
            a.family = AF_UNIX;
            (a, SOCKADDR_UN_SIZE)
        },
    }
}

/// Position of the first nul byte of `path`, or its length.
pub open spec fn path_len(path: Seq<u8>, i: int) -> int
    decreases path.len() - i,
{
    if i >= path.len() {
        path.len() as int
    } else if path[i] == 0 {
        i
    } else {
        path_len(path, i + 1)
    }
}

/// `core::str::from_utf8`: the bytes as a string slice when they are valid
/// UTF-8, as its documentation states; the contract claims exactly that
/// (`Ok` iff valid, and then the characters are the decoded bytes).
#[verifier::external_body]
fn str_from_utf8(bytes: &[u8]) -> (r: Option<&str>)
    ensures
        r is Some <==> valid_utf8(bytes@),
        r matches Some(s) ==> s@ == decode_utf8(bytes@),
{
    match core::str::from_utf8(bytes) {
        Ok(s) => Some(s),
        Err(_) => None,
    }
}

/// The path of a Unix socket address: its bytes up to the first nul (or
/// all 108), which must be valid UTF-8 (`InvalidPath` otherwise). Abstract
/// addresses, whose path starts with a nul, are not supported (the socket
/// asserts it), so they are left out.
pub fn path_from_unix_sock(address: &SocketAddrUnix) -> (r: Result<&str, FileSystemError>)
    requires
        address.path@[0] != 0u8,
    ensures
        ({
            let bytes = address.path@.subrange(0, path_len(address.path@, 0));
            &&& valid_utf8(bytes) ==> (r matches Ok(s) && s@ == decode_utf8(bytes))
            &&& !valid_utf8(bytes) ==> r == Err::<&str, FileSystemError>(FileSystemError::InvalidPath)
        }),
{
    let path = address.path.as_slice();
    let n = path.len();
    let mut len: usize = 0;
    while len < n
        invariant
            n == path@.len(),
            path@ == address.path@,
            len <= n,
            path_len(path@, 0) == path_len(path@, len as int),
        ensures
            len <= n,
            len == n || path@[len as int] == 0,
            path_len(path@, 0) == path_len(path@, len as int),
        decreases n - len,
    {
        if path[len] == 0 {
            break;
        }
        len = len + 1;
    }
    proof {
        lemma_path_len_stop(path@, len as int);
    }
    let (bytes, _) = path.split_at(len);
    match str_from_utf8(bytes) {
        Some(s) => Ok(s),
        None => Err(FileSystemError::InvalidPath),
    }
}

proof fn lemma_path_len_stop(path: Seq<u8>, i: int)
    requires
        0 <= i <= path.len(),
        i == path.len() || path[i] == 0,
    ensures
        path_len(path, i) == i,
{
}

/// One `push` of `x` on a queue holding `q` with room for `backlog`: it
/// succeeds (`ok`) and appends `x` while there is room, and otherwise
/// fails and changes nothing.
pub open spec fn push_step<S>(q: Seq<S>, backlog: nat, x: S, ok: bool, q2: Seq<S>) -> bool {
    if q.len() < backlog {
        ok && q2 == q.push(x)
    } else {
        !ok && q2 == q
    }
}

/// Filling the backlog: pushing connections one by one on an empty queue
/// with room for `backlog`, the first `backlog` pushes succeed and the
/// later ones are refused, and the queue holds the first `backlog`
/// connections pushed, in order.
pub proof fn lemma_backlog_fill<S>(qs: Seq<Seq<S>>, xs: Seq<S>, oks: Seq<bool>, backlog: nat)
    requires
        qs.len() == xs.len() + 1,
        oks.len() == xs.len(),
        qs[0].len() == 0,
        forall|k: int| #![trigger xs[k]] 0 <= k < xs.len() ==> push_step(qs[k], backlog, xs[k], oks[k], qs[k + 1]),
    ensures
        forall|k: int| 0 <= k < xs.len() ==> #[trigger] oks[k] == (k < backlog),
        qs[xs.len() as int] == xs.take(if xs.len() < backlog { xs.len() as int } else { backlog as int }),
{
    assert forall|k: int| 0 <= k < xs.len() implies #[trigger] oks[k] == (k < backlog) by {
        lemma_backlog_fill_state(qs, xs, oks, backlog, k);
        let _ = xs[k];
    }
    lemma_backlog_fill_state(qs, xs, oks, backlog, xs.len() as int);
}

proof fn lemma_backlog_fill_state<S>(qs: Seq<Seq<S>>, xs: Seq<S>, oks: Seq<bool>, backlog: nat, i: int)
    requires
        qs.len() == xs.len() + 1,
        oks.len() == xs.len(),
        qs[0].len() == 0,
        forall|k: int| #![trigger xs[k]] 0 <= k < xs.len() ==> push_step(qs[k], backlog, xs[k], oks[k], qs[k + 1]),
        0 <= i <= xs.len(),
    ensures
        qs[i] == xs.take(if i < backlog { i } else { backlog as int }),
    decreases i,
{
    if i == 0 {
        assert(qs[0] =~= xs.take(0));
    } else {
        lemma_backlog_fill_state(qs, xs, oks, backlog, i - 1);
        let _ = xs[i - 1];
        if i - 1 < backlog {
            assert(xs.take(i - 1).push(xs[i - 1]) =~= xs.take(i));
        }
    }
}

/// Reading a message in pieces loses nothing: when a read takes the first
/// `size` bytes of the oldest message and leaves the rest waiting, those
/// bytes followed by what a later read takes of the rest are the message.
pub proof fn lemma_partial_reads(m: Seq<u8>, size: int, later: int)
    requires
        0 <= size < m.len(),
        later == m.len() - size,
    ensures
        m.subrange(0, size) + m.subrange(size, m.len() as int).subrange(0, later) == m,
{
    assert(m.subrange(0, size) + m.subrange(size, m.len() as int).subrange(0, later) =~= m);
}

} // verus!
