use vstd::prelude::*;

verus! {

pub const SYSCALL_DUP: usize = 24;
pub const SYSCALL_OPEN: usize = 56;
pub const SYSCALL_CLOSE: usize = 57;
pub const SYSCALL_PIPE: usize = 59;
pub const SYSCALL_READ: usize = 63;
pub const SYSCALL_WRITE: usize = 64;
pub const SYSCALL_EXIT: usize = 93;
pub const SYSCALL_SLEEP: usize = 101;
pub const SYSCALL_YIELD: usize = 124;
pub const SYSCALL_KILL: usize = 129;
pub const SYSCALL_GET_TIME: usize = 169;
pub const SYSCALL_GETPID: usize = 172;
pub const SYSCALL_FORK: usize = 220;
pub const SYSCALL_EXEC: usize = 221;
pub const SYSCALL_WAITPID: usize = 260;
pub const SYSCALL_THREAD_CREATE: usize = 1000;
pub const SYSCALL_GETTID: usize = 1001;
pub const SYSCALL_WAITTID: usize = 1002;
pub const SYSCALL_MUTEX_CREATE: usize = 1010;
pub const SYSCALL_MUTEX_LOCK: usize = 1011;
pub const SYSCALL_MUTEX_UNLOCK: usize = 1012;
pub const SYSCALL_SEMAPHORE_CREATE: usize = 1020;
pub const SYSCALL_SEMAPHORE_UP: usize = 1021;
pub const SYSCALL_SEMAPHORE_DOWN: usize = 1022;
pub const SYSCALL_CONDVAR_CREATE: usize = 1030;
pub const SYSCALL_CONDVAR_SIGNAL: usize = 1031;
pub const SYSCALL_CONDVAR_WAIT: usize = 1032;
pub const SYSCALL_CREATE_DESKTOP: usize = 2000;

/// A kernel system call with its arguments taken out of the argument
/// registers. Addresses in user memory stay plain numbers.
#[derive(Clone, Copy, Debug, PartialEq, Eq, Structural)]
pub enum KernelCall {
    Dup { fd: usize },
    Open { path: usize, flags: u32 },
    Close { fd: usize },
    Pipe { pipe: usize },
    Read { fd: usize, buf: usize, len: usize },
    Write { fd: usize, buf: usize, len: usize },
    Exit { exit_code: i32 },
    Yield,
    Kill { pid: usize, signal: u32 },
    GetTime,
    GetPid,
    Fork,
    Exec { path: usize, args: usize },
    WaitPid { pid: isize, exit_code: usize },
    ThreadCreate { entry: usize, arg: usize },
    GetTid,
    WaitTid { tid: usize },
    Sleep { ms: usize },
    MutexCreate { blocking: bool },
    MutexLock { id: usize },
    MutexUnlock { id: usize },
    SemaphoreCreate { res_count: usize },
    SemaphoreUp { id: usize },
    SemaphoreDown { id: usize },
    CondvarCreate { arg: usize },
    CondvarSignal { id: usize },
    CondvarWait { condvar_id: usize, mutex_id: usize },
}

/// Whether the kernel serves system call `id`.
pub open spec fn is_supported(id: usize) -> bool {
    id == SYSCALL_DUP || id == SYSCALL_OPEN || id == SYSCALL_CLOSE || id == SYSCALL_PIPE
        || id == SYSCALL_READ || id == SYSCALL_WRITE || id == SYSCALL_EXIT || id == SYSCALL_YIELD
        || id == SYSCALL_KILL || id == SYSCALL_GET_TIME || id == SYSCALL_GETPID || id == SYSCALL_FORK
        || id == SYSCALL_EXEC || id == SYSCALL_WAITPID || id == SYSCALL_THREAD_CREATE || id == SYSCALL_GETTID
        || id == SYSCALL_WAITTID || id == SYSCALL_SLEEP || id == SYSCALL_MUTEX_CREATE || id == SYSCALL_MUTEX_LOCK
        || id == SYSCALL_MUTEX_UNLOCK || id == SYSCALL_SEMAPHORE_CREATE || id == SYSCALL_SEMAPHORE_UP
        || id == SYSCALL_SEMAPHORE_DOWN || id == SYSCALL_CONDVAR_CREATE || id == SYSCALL_CONDVAR_SIGNAL
        || id == SYSCALL_CONDVAR_WAIT
}

/// Whether the kernel serves system call `id`.
pub fn is_supported_id(id: usize) -> (r: bool)
    ensures
        r == is_supported(id),
{
    id == SYSCALL_DUP || id == SYSCALL_OPEN || id == SYSCALL_CLOSE || id == SYSCALL_PIPE
        || id == SYSCALL_READ || id == SYSCALL_WRITE || id == SYSCALL_EXIT || id == SYSCALL_YIELD
        || id == SYSCALL_KILL || id == SYSCALL_GET_TIME || id == SYSCALL_GETPID || id == SYSCALL_FORK
        || id == SYSCALL_EXEC || id == SYSCALL_WAITPID || id == SYSCALL_THREAD_CREATE || id == SYSCALL_GETTID
        || id == SYSCALL_WAITTID || id == SYSCALL_SLEEP || id == SYSCALL_MUTEX_CREATE || id == SYSCALL_MUTEX_LOCK
        || id == SYSCALL_MUTEX_UNLOCK || id == SYSCALL_SEMAPHORE_CREATE || id == SYSCALL_SEMAPHORE_UP
        || id == SYSCALL_SEMAPHORE_DOWN || id == SYSCALL_CONDVAR_CREATE || id == SYSCALL_CONDVAR_SIGNAL
        || id == SYSCALL_CONDVAR_WAIT
}

/// The call that number `id` with argument registers `args` asks for.
/// Narrower arguments keep the low bits of their register.
pub open spec fn decode(id: usize, args: Seq<usize>) -> KernelCall
    recommends
        is_supported(id),
        args.len() == 3,
{
    if id == SYSCALL_DUP {
        KernelCall::Dup { fd: args[0] }
    } else if id == SYSCALL_OPEN {
        KernelCall::Open { path: args[0], flags: args[1] as u32 }
    } else if id == SYSCALL_CLOSE {
        KernelCall::Close { fd: args[0] }
    } else if id == SYSCALL_PIPE {
        KernelCall::Pipe { pipe: args[0] }
    } else if id == SYSCALL_READ {
        KernelCall::Read { fd: args[0], buf: args[1], len: args[2] }
    } else if id == SYSCALL_WRITE {
        KernelCall::Write { fd: args[0], buf: args[1], len: args[2] }
    } else if id == SYSCALL_EXIT {
        KernelCall::Exit { exit_code: args[0] as i32 }
    } else if id == SYSCALL_YIELD {
        KernelCall::Yield
    } else if id == SYSCALL_KILL {
        KernelCall::Kill { pid: args[0], signal: args[1] as u32 }
    } else if id == SYSCALL_GET_TIME {
        KernelCall::GetTime
    } else if id == SYSCALL_GETPID {
        KernelCall::GetPid
    } else if id == SYSCALL_FORK {
        KernelCall::Fork
    } else if id == SYSCALL_EXEC {
        KernelCall::Exec { path: args[0], args: args[1] }
    } else if id == SYSCALL_WAITPID {
        KernelCall::WaitPid { pid: args[0] as isize, exit_code: args[1] }
    } else if id == SYSCALL_THREAD_CREATE {
        KernelCall::ThreadCreate { entry: args[0], arg: args[1] }
    } else if id == SYSCALL_GETTID {
        KernelCall::GetTid
    } else if id == SYSCALL_WAITTID {
        KernelCall::WaitTid { tid: args[0] }
    } else if id == SYSCALL_SLEEP {
        KernelCall::Sleep { ms: args[0] }
    } else if id == SYSCALL_MUTEX_CREATE {
        KernelCall::MutexCreate { blocking: args[0] == 1 }
    } else if id == SYSCALL_MUTEX_LOCK {
        KernelCall::MutexLock { id: args[0] }
    } else if id == SYSCALL_MUTEX_UNLOCK {
        KernelCall::MutexUnlock { id: args[0] }
    } else if id == SYSCALL_SEMAPHORE_CREATE {
        KernelCall::SemaphoreCreate { res_count: args[0] }
    } else if id == SYSCALL_SEMAPHORE_UP {
        KernelCall::SemaphoreUp { id: args[0] }
    } else if id == SYSCALL_SEMAPHORE_DOWN {
        KernelCall::SemaphoreDown { id: args[0] }
    } else if id == SYSCALL_CONDVAR_CREATE {
        KernelCall::CondvarCreate { arg: args[0] }
    } else if id == SYSCALL_CONDVAR_SIGNAL {
        KernelCall::CondvarSignal { id: args[0] }
    } else {
        KernelCall::CondvarWait { condvar_id: args[0], mutex_id: args[1] }
    }
}

/// Dispatches kernel system call `syscall_id`: which call it is and its
/// arguments. An unsupported number panics in the kernel, so it is left
/// out.
pub fn syscall(syscall_id: usize, args: [usize; 3]) -> (call: KernelCall)
    requires
        is_supported(syscall_id),
    ensures
        call == decode(syscall_id, args@),
{
    let a0 = args[0];
    let a1 = args[1];
    let a2 = args[2];
    match syscall_id {
        SYSCALL_DUP => KernelCall::Dup { fd: a0 },
        SYSCALL_OPEN => KernelCall::Open { path: a0, flags: #[verifier::truncate] (a1 as u32) },
        SYSCALL_CLOSE => KernelCall::Close { fd: a0 },
        SYSCALL_PIPE => KernelCall::Pipe { pipe: a0 },
        SYSCALL_READ => KernelCall::Read { fd: a0, buf: a1, len: a2 },
        SYSCALL_WRITE => KernelCall::Write { fd: a0, buf: a1, len: a2 },
        SYSCALL_EXIT => KernelCall::Exit { exit_code: #[verifier::truncate] (a0 as i32) },
        SYSCALL_YIELD => KernelCall::Yield,
        SYSCALL_KILL => KernelCall::Kill { pid: a0, signal: #[verifier::truncate] (a1 as u32) },
        SYSCALL_GET_TIME => KernelCall::GetTime,
        SYSCALL_GETPID => KernelCall::GetPid,
        SYSCALL_FORK => KernelCall::Fork,
        SYSCALL_EXEC => KernelCall::Exec { path: a0, args: a1 },
        SYSCALL_WAITPID => KernelCall::WaitPid { pid: #[verifier::truncate] (a0 as isize), exit_code: a1 },
        SYSCALL_THREAD_CREATE => KernelCall::ThreadCreate { entry: a0, arg: a1 },
        SYSCALL_GETTID => KernelCall::GetTid,
        SYSCALL_WAITTID => KernelCall::WaitTid { tid: a0 },
        SYSCALL_SLEEP => KernelCall::Sleep { ms: a0 },
        SYSCALL_MUTEX_CREATE => KernelCall::MutexCreate { blocking: a0 == 1 },
        SYSCALL_MUTEX_LOCK => KernelCall::MutexLock { id: a0 },
        SYSCALL_MUTEX_UNLOCK => KernelCall::MutexUnlock { id: a0 },
        SYSCALL_SEMAPHORE_CREATE => KernelCall::SemaphoreCreate { res_count: a0 },
        SYSCALL_SEMAPHORE_UP => KernelCall::SemaphoreUp { id: a0 },
        SYSCALL_SEMAPHORE_DOWN => KernelCall::SemaphoreDown { id: a0 },
        SYSCALL_CONDVAR_CREATE => KernelCall::CondvarCreate { arg: a0 },
        SYSCALL_CONDVAR_SIGNAL => KernelCall::CondvarSignal { id: a0 },
        _ => KernelCall::CondvarWait { condvar_id: a0, mutex_id: a1 },
    }
}

/// The kernel's register assignment for each call: the first argument of
/// every call comes from `a0`, the second from `a1`, the third from `a2`.
/// Read and write take the file descriptor from `a0`, the buffer address
/// from `a1` and the length from `a2`; narrower arguments keep the low bits
/// of their register.
pub proof fn lemma_register_assignment(args: Seq<usize>)
    requires
        args.len() == 3,
    ensures
        decode(SYSCALL_DUP, args) == (KernelCall::Dup { fd: args[0] }),
        decode(SYSCALL_OPEN, args) == (KernelCall::Open { path: args[0], flags: args[1] as u32 }),
        decode(SYSCALL_CLOSE, args) == (KernelCall::Close { fd: args[0] }),
        decode(SYSCALL_PIPE, args) == (KernelCall::Pipe { pipe: args[0] }),
        decode(SYSCALL_READ, args) == (KernelCall::Read { fd: args[0], buf: args[1], len: args[2] }),
        decode(SYSCALL_WRITE, args) == (KernelCall::Write { fd: args[0], buf: args[1], len: args[2] }),
        decode(SYSCALL_EXIT, args) == (KernelCall::Exit { exit_code: args[0] as i32 }),
        decode(SYSCALL_YIELD, args) == KernelCall::Yield,
        decode(SYSCALL_KILL, args) == (KernelCall::Kill { pid: args[0], signal: args[1] as u32 }),
        decode(SYSCALL_GET_TIME, args) == KernelCall::GetTime,
        decode(SYSCALL_GETPID, args) == KernelCall::GetPid,
        decode(SYSCALL_FORK, args) == KernelCall::Fork,
        decode(SYSCALL_EXEC, args) == (KernelCall::Exec { path: args[0], args: args[1] }),
        decode(SYSCALL_WAITPID, args) == (KernelCall::WaitPid { pid: args[0] as isize, exit_code: args[1] }),
        decode(SYSCALL_THREAD_CREATE, args) == (KernelCall::ThreadCreate { entry: args[0], arg: args[1] }),
        decode(SYSCALL_GETTID, args) == KernelCall::GetTid,
        decode(SYSCALL_WAITTID, args) == (KernelCall::WaitTid { tid: args[0] }),
        decode(SYSCALL_SLEEP, args) == (KernelCall::Sleep { ms: args[0] }),
        decode(SYSCALL_MUTEX_CREATE, args) == (KernelCall::MutexCreate { blocking: args[0] == 1 }),
        decode(SYSCALL_MUTEX_LOCK, args) == (KernelCall::MutexLock { id: args[0] }),
        decode(SYSCALL_MUTEX_UNLOCK, args) == (KernelCall::MutexUnlock { id: args[0] }),
        decode(SYSCALL_SEMAPHORE_CREATE, args) == (KernelCall::SemaphoreCreate { res_count: args[0] }),
        decode(SYSCALL_SEMAPHORE_UP, args) == (KernelCall::SemaphoreUp { id: args[0] }),
        decode(SYSCALL_SEMAPHORE_DOWN, args) == (KernelCall::SemaphoreDown { id: args[0] }),
        decode(SYSCALL_CONDVAR_CREATE, args) == (KernelCall::CondvarCreate { arg: args[0] }),
        decode(SYSCALL_CONDVAR_SIGNAL, args) == (KernelCall::CondvarSignal { id: args[0] }),
        decode(SYSCALL_CONDVAR_WAIT, args) == (KernelCall::CondvarWait { condvar_id: args[0], mutex_id: args[1] }),
{
}

/// Reading and writing read their arguments alike: on the same registers a
/// read and a write name the same file descriptor, buffer and length.
pub proof fn lemma_read_write_alike(args: Seq<usize>)
    requires
        args.len() == 3,
    ensures
        ({
            let r = decode(SYSCALL_READ, args);
            let w = decode(SYSCALL_WRITE, args);
            &&& r is Read
            &&& w is Write
            &&& r->Read_fd == w->Write_fd
            &&& r->Read_buf == w->Write_buf
            &&& r->Read_len == w->Write_len
        }),
{
}

} // verus!
