use vstd::prelude::*;

verus! {

/// Module number of process calls.
pub const MODULE_PROCESS: usize = 0x114514;
/// Module number of task calls.
pub const MODULE_TASK: usize = 0x7777777;
/// Module number of the test interface.
pub const MODULE_TEST_INTERFACE: usize = 0x233666;

pub const FUNC_PROCESS_EXIT: usize = 0x1919810;
pub const FUNC_PROCESS_PANIC: usize = 0x11451419;
pub const FUNC_SWITCH_TASK: usize = 0x666666;
pub const FUNC_IO_TASK: usize = 0x55555;
pub const FUNC_CHECK: usize = 0x4444;

pub const FUNC_TEST_WRITE: usize = 0x666233;
pub const FUNC_TEST_WRITE_ONE: usize = 0x444555;
pub const FUNC_TEST_READ_ONE: usize = 0x999888;
pub const FUNC_TEST_READ_LINE: usize = 0x11117777;
pub const FUNC_TEST_RESET_TIMER: usize = 0x333;
pub const FUNC_TEST_READ_TIMER: usize = 0x22;

/// Size of the block that block I/O calls move.
pub const BLOCK_SIZE: usize = 512;

/// A system call as it is issued with `ecall`: `id` goes in register `a7`,
/// `args` in `a0`, `a1`, ... in order.
pub struct SyscallRequest {
    pub id: usize,
    pub args: Vec<usize>,
}

/// The request with number `id` and arguments `args`.
pub open spec fn request(r: SyscallRequest, id: usize, args: Seq<usize>) -> bool {
    r.id == id && r.args@ == args
}

/// The generic three-argument call: number `id`, arguments `args`.
pub fn syscall(id: usize, args: [usize; 3]) -> (r: SyscallRequest)
    ensures
        request(r, id, args@),
{
    let r = SyscallRequest { id, args: vec![args[0], args[1], args[2]] };
    assert(r.args@ =~= args@);
    r
}

/// Ends the process with `exit_code` (sign-extended into the register).
pub fn sys_exit(exit_code: i32) -> (r: SyscallRequest)
    ensures
        request(r, MODULE_PROCESS, seq![FUNC_PROCESS_EXIT, exit_code as usize]),
{
    let r = SyscallRequest { id: MODULE_PROCESS, args: vec![FUNC_PROCESS_EXIT, exit_code as usize] };
    assert(r.args@ =~= seq![FUNC_PROCESS_EXIT, exit_code as usize]);
    r
}

/// Reports a panic at `line`:`col`. `file_name` and `msg` are given by
/// address and length; an absent one is passed as address 0, length 0.
pub fn sys_panic(file_name: Option<(usize, usize)>, line: u32, col: u32, msg: Option<(usize, usize)>) -> (r: SyscallRequest)
    ensures
        ({
            let (f_buf, f_len) = match file_name { Some(f) => f, None => (0usize, 0usize) };
            let (m_buf, m_len) = match msg { Some(m) => m, None => (0usize, 0usize) };
            request(r, MODULE_PROCESS, seq![FUNC_PROCESS_PANIC, line as usize, col as usize, f_buf, f_len, m_buf, m_len])
        }),
{
    let (f_buf, f_len) = match file_name {
        Some(f) => f,
        None => (0, 0),
    };
    let (m_buf, m_len) = match msg {
        Some(m) => m,
        None => (0, 0),
    };
    let r = SyscallRequest {
        id: MODULE_PROCESS,
        args: vec![FUNC_PROCESS_PANIC, line as usize, col as usize, f_buf, f_len, m_buf, m_len],
    };
    assert(r.args@ =~= seq![FUNC_PROCESS_PANIC, line as usize, col as usize, f_buf, f_len, m_buf, m_len]);
    r
}

/// Switches to the task of address space `next_asid`.
pub fn sys_yield(next_asid: usize) -> (r: SyscallRequest)
    ensures
        request(r, MODULE_TASK, seq![FUNC_SWITCH_TASK, next_asid]),
{
    let r = SyscallRequest { id: MODULE_TASK, args: vec![FUNC_SWITCH_TASK, next_asid] };
    assert(r.args@ =~= seq![FUNC_SWITCH_TASK, next_asid]);
    r
}

/// Writes the `len` bytes at address `buf` to the test console.
pub fn sys_test_write(buf: usize, len: usize) -> (r: SyscallRequest)
    ensures
        request(r, MODULE_TEST_INTERFACE, seq![FUNC_TEST_WRITE, 0, buf, len]),
{
    let r = SyscallRequest { id: MODULE_TEST_INTERFACE, args: vec![FUNC_TEST_WRITE, 0, buf, len] };
    assert(r.args@ =~= seq![FUNC_TEST_WRITE, 0, buf, len]);
    r
}

/// Writes one value to the test console.
pub fn sys_test_write_one(data: usize) -> (r: SyscallRequest)
    ensures
        request(r, MODULE_TEST_INTERFACE, seq![FUNC_TEST_WRITE_ONE, 0, data]),
{
    let r = SyscallRequest { id: MODULE_TEST_INTERFACE, args: vec![FUNC_TEST_WRITE_ONE, 0, data] };
    assert(r.args@ =~= seq![FUNC_TEST_WRITE_ONE, 0, data]);
    r
}

/// Reads one value from the test console.
pub fn sys_test_read_one() -> (r: SyscallRequest)
    ensures
        request(r, MODULE_TEST_INTERFACE, seq![FUNC_TEST_READ_ONE, 0]),
{
    let r = SyscallRequest { id: MODULE_TEST_INTERFACE, args: vec![FUNC_TEST_READ_ONE, 0] };
    assert(r.args@ =~= seq![FUNC_TEST_READ_ONE, 0]);
    r
}

/// Reads a line from the test console into the `len` bytes at `buf`.
pub fn sys_test_read_line(buf: usize, len: usize) -> (r: SyscallRequest)
    ensures
        request(r, MODULE_TEST_INTERFACE, seq![FUNC_TEST_READ_LINE, 0, buf, len]),
{
    let r = SyscallRequest { id: MODULE_TEST_INTERFACE, args: vec![FUNC_TEST_READ_LINE, 0, buf, len] };
    assert(r.args@ =~= seq![FUNC_TEST_READ_LINE, 0, buf, len]);
    r
}

/// Resets the test timer.
pub fn sys_test_rest_timer() -> (r: SyscallRequest)
    ensures
        request(r, MODULE_TEST_INTERFACE, seq![FUNC_TEST_RESET_TIMER]),
{
    let r = SyscallRequest { id: MODULE_TEST_INTERFACE, args: vec![FUNC_TEST_RESET_TIMER] };
    assert(r.args@ =~= seq![FUNC_TEST_RESET_TIMER]);
    r
}

/// Reads the test timer.
pub fn sys_read_timer() -> (r: SyscallRequest)
    ensures
        request(r, MODULE_TEST_INTERFACE, seq![FUNC_TEST_READ_TIMER]),
{
    let r = SyscallRequest { id: MODULE_TEST_INTERFACE, args: vec![FUNC_TEST_READ_TIMER] };
    assert(r.args@ =~= seq![FUNC_TEST_READ_TIMER]);
    r
}

/// Reads block `block_id` into the block-sized buffer at `buf` (`len`, the
/// buffer's length, must be `BLOCK_SIZE`: the call asserts it).
pub fn sys_enroll_read(block_id: usize, buf: usize, len: usize) -> (r: SyscallRequest)
    requires
        len == BLOCK_SIZE,
    ensures
        request(r, MODULE_TASK, seq![FUNC_IO_TASK, 0, block_id, buf]),
{
    let r = SyscallRequest { id: MODULE_TASK, args: vec![FUNC_IO_TASK, 0, block_id, buf] };
    assert(r.args@ =~= seq![FUNC_IO_TASK, 0, block_id, buf]);
    r
}

/// Writes the block-sized buffer at `buf` to block `block_id` (`len`, the
/// buffer's length, must be `BLOCK_SIZE`: the call asserts it).
pub fn sys_error_write(block_id: usize, buf: usize, len: usize) -> (r: SyscallRequest)
    requires
        len == BLOCK_SIZE,
    ensures
        request(r, MODULE_TASK, seq![FUNC_IO_TASK, 1, block_id, buf]),
{
    let r = SyscallRequest { id: MODULE_TASK, args: vec![FUNC_IO_TASK, 1, block_id, buf] };
    assert(r.args@ =~= seq![FUNC_IO_TASK, 1, block_id, buf]);
    r
}

/// Asks the kernel to check its state.
pub fn sys_kernel_check() -> (r: SyscallRequest)
    ensures
        request(r, MODULE_TASK, seq![FUNC_CHECK]),
{
    let r = SyscallRequest { id: MODULE_TASK, args: vec![FUNC_CHECK] };
    assert(r.args@ =~= seq![FUNC_CHECK]);
    r
}

/// Ends the process with `exit_code`.
pub fn exit(exit_code: i32) -> (r: SyscallRequest)
    ensures
        request(r, MODULE_PROCESS, seq![FUNC_PROCESS_EXIT, exit_code as usize]),
{
    sys_exit(exit_code)
}

/// Switches to the task of address space `next_asid`.
pub fn do_yield(next_asid: usize) -> (r: SyscallRequest)
    ensures
        request(r, MODULE_TASK, seq![FUNC_SWITCH_TASK, next_asid]),
{
    sys_yield(next_asid)
}

/// Resets the test timer.
pub fn reset_timer() -> (r: SyscallRequest)
    ensures
        request(r, MODULE_TEST_INTERFACE, seq![FUNC_TEST_RESET_TIMER]),
{
    sys_test_rest_timer()
}

/// Reads the test timer.
pub fn read_timer() -> (r: SyscallRequest)
    ensures
        request(r, MODULE_TEST_INTERFACE, seq![FUNC_TEST_READ_TIMER]),
{
    sys_read_timer()
}

} // verus!
