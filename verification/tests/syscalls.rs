use hurricane::kernel_syscall::{self, KernelCall};
use hurricane::syscall::{self as sc, SyscallRequest};

fn parts(r: SyscallRequest) -> (usize, Vec<usize>) {
    (r.id, r.args)
}

#[test]
fn user_calls_put_module_in_a7() {
    assert_eq!(parts(sc::exit(3)), (0x114514, vec![0x1919810, 3]));
    assert_eq!(parts(sc::exit(-1)), (0x114514, vec![0x1919810, usize::MAX]));
    assert_eq!(parts(sc::do_yield(2)), (0x7777777, vec![0x666666, 2]));
    assert_eq!(parts(sc::reset_timer()), (0x233666, vec![0x333]));
    assert_eq!(parts(sc::read_timer()), (0x233666, vec![0x22]));
    assert_eq!(parts(sc::sys_test_write_one(65)), (0x233666, vec![0x444555, 0, 65]));
    assert_eq!(parts(sc::sys_test_read_one()), (0x233666, vec![0x999888, 0]));
    assert_eq!(parts(sc::sys_test_write(0x1000, 5)), (0x233666, vec![0x666233, 0, 0x1000, 5]));
    assert_eq!(parts(sc::sys_test_read_line(0x2000, 80)), (0x233666, vec![0x11117777, 0, 0x2000, 80]));
    assert_eq!(parts(sc::sys_kernel_check()), (0x7777777, vec![0x4444]));
    assert_eq!(parts(sc::sys_enroll_read(7, 0x3000, 512)), (0x7777777, vec![0x55555, 0, 7, 0x3000]));
    assert_eq!(parts(sc::sys_error_write(7, 0x3000, 512)), (0x7777777, vec![0x55555, 1, 7, 0x3000]));
    assert_eq!(parts(sc::sys_panic(Some((0x10, 4)), 12, 5, None)), (0x114514, vec![0x11451419, 12, 5, 0x10, 4, 0, 0]));
    assert_eq!(parts(sc::syscall(64, [1, 2, 3])), (64, vec![1, 2, 3]));
}

#[test]
fn kernel_calls_decode() {
    assert_eq!(kernel_syscall::syscall(64, [1, 0x8000, 12]), KernelCall::Write { fd: 1, buf: 0x8000, len: 12 });
    assert_eq!(kernel_syscall::syscall(93, [usize::MAX, 0, 0]), KernelCall::Exit { exit_code: -1 });
    assert_eq!(kernel_syscall::syscall(56, [0x100, 0x1_0000_0002, 0]), KernelCall::Open { path: 0x100, flags: 2 });
    assert_eq!(kernel_syscall::syscall(260, [usize::MAX, 0x50, 0]), KernelCall::WaitPid { pid: -1, exit_code: 0x50 });
    assert_eq!(kernel_syscall::syscall(1010, [1, 0, 0]), KernelCall::MutexCreate { blocking: true });
    assert_eq!(kernel_syscall::syscall(1010, [2, 0, 0]), KernelCall::MutexCreate { blocking: false });
    assert_eq!(kernel_syscall::syscall(1032, [3, 4, 0]), KernelCall::CondvarWait { condvar_id: 3, mutex_id: 4 });
    assert_eq!(kernel_syscall::syscall(124, [0, 0, 0]), KernelCall::Yield);
}

#[test]
fn join_path_puts_a_slash_between_parent_and_name() {
    assert_eq!(hurricane::fs_node::join_path(b"/usr", b"bin"), b"/usr/bin".to_vec());
    assert_eq!(hurricane::fs_node::join_path(b"", b"root"), b"/root".to_vec());
    assert_eq!(hurricane::fs_node::join_path(b"/a", b""), b"/a/".to_vec());
}
