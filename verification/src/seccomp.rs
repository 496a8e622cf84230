//! The part of a policy Landlock cannot express.
//!
//! Landlock sees files and TCP ports. It does not see the syscalls that reach
//! around a file policy — a memory file handed to `execveat`, a debugger
//! attaching to a sibling, a ring that opens sockets without `socket(2)` — nor
//! the egress channels a TCP rule never names: UDP, raw and packet sockets,
//! netlink families, MPTCP, which the kernel routes past the TCP hooks. A
//! seccomp filter closes those at the one syscall each of them needs.
//!
//! - **Baseline**, installed in every mode. It denies the syscalls above and
//!   refuses `io_uring`, `clone3` (so a thread library falls back to `clone`,
//!   whose flags this filter can read) and any `clone` asking for a new
//!   namespace. Everything else passes untouched.
//! - **Proxy-only**, installed when the run claims the loopback proxy is its
//!   only egress. On top of the baseline, `socket(2)` is refused unless it asks
//!   for `AF_INET` with `SOCK_STREAM`.
//!
//! Every refusal is an errno a program already knows how to handle — `EPERM`,
//! `ENOSYS`, `EAFNOSUPPORT` — except one: a process whose syscall numbers come
//! from another architecture's table is killed, because for it any errno would
//! be a lie about which call was refused.
//!
//! The syscall numbers, address families and error numbers differ between
//! architectures; they reach this module as a [`SyscallAbi`], and every
//! property proved here holds for whichever table it is given.

pub mod assembler;
pub mod behaviour;

use vstd::prelude::*;
use assembler::{
    aheads_local, aheads_within, ahead_within, arg_high, arg_low, guarded, jumps_land_inside, lemma_aheads_concat,
    lemma_aheads_guarded, lemma_aheads_refuse, refuse_ops, resolved, verdict_action, verdict_at, Assembler, Errnos,
    Instruction, Pending, Target, Verdict, ALU_AND_K, JMP_JA, JMP_JEQ_K, JMP_JSET_K, LD_W_ABS, OFFSET_ARCH, OFFSET_NR,
    RET_K,
};

verus! {

/// Added after the syscall tables were unified, so the same number on every
/// architecture this builds for.
pub const SYS_IO_URING_SETUP: u32 = 425;
pub const SYS_IO_URING_ENTER: u32 = 426;
pub const SYS_IO_URING_REGISTER: u32 = 427;
pub const SYS_OPEN_TREE: u32 = 428;
pub const SYS_MOVE_MOUNT: u32 = 429;
pub const SYS_FSOPEN: u32 = 430;
pub const SYS_FSCONFIG: u32 = 431;
pub const SYS_FSMOUNT: u32 = 432;
pub const SYS_FSPICK: u32 = 433;
pub const SYS_CLONE3: u32 = 435;
pub const SYS_PIDFD_GETFD: u32 = 438;
pub const SYS_MOUNT_SETATTR: u32 = 442;

/// `clone(2)` flags that create a namespace. Any of them set is refused:
/// NEWNS, NEWCGROUP, NEWUTS, NEWIPC, NEWUSER, NEWPID, NEWNET, NEWTIME.
pub const CLONE_NEWNS_ANY: u32 = 0x7e02_0080;

/// `ioctl` requests that push input into a terminal another process reads.
pub const TIOCSTI: u32 = 0x5412;
pub const TIOCLINUX: u32 = 0x541c;

/// `execveat` with this flag runs the file behind a descriptor, path unseen.
pub const AT_EMPTY_PATH: u32 = 0x1000;

/// `type` carries `SOCK_NONBLOCK` and `SOCK_CLOEXEC` in its high bits.
pub const SOCK_TYPE_MASK: u32 = 0xf;
pub const NETLINK_ROUTE: u32 = 0;
/// Multipath TCP is routed past Landlock's TCP hooks, so a port rule does not
/// see it; a socket asking for it is refused.
pub const IPPROTO_MPTCP: u32 = 262;

/// What one architecture calls the things this filter names.
pub struct SyscallAbi {
    /// The `AUDIT_ARCH_*` token of the syscall table below.
    pub audit_arch: u32,
    /// Syscalls refused with `EPERM` in every mode: attaching to or reading
    /// another process, mounting, entering or creating namespaces, loading
    /// kernel code, machine-wide state, and the fileless-exec and bypass
    /// primitives.
    pub denied: Vec<u32>,
    /// The same, for calls only this architecture has (port I/O on x86).
    pub denied_arch: Vec<u32>,
    pub sys_clone: u32,
    pub sys_ioctl: u32,
    pub sys_execveat: u32,
    pub sys_socket: u32,
    pub af_inet: u32,
    pub af_inet6: u32,
    pub af_netlink: u32,
    pub af_packet: u32,
    pub af_bluetooth: u32,
    pub af_vsock: u32,
    pub ipproto_tcp: u32,
    pub sock_raw: u32,
    pub sock_stream: u32,
    pub errnos: Errnos,
}

impl SyscallAbi {
    /// A table this filter can be built from: error numbers that fit the
    /// errno action, and few enough refusals that every verdict stays within
    /// one BPF jump.
    pub open spec fn wf(&self) -> bool {
        &&& self.errnos.fit()
        &&& self.denied@.len() + self.denied_arch@.len() <= 180
    }
}

/// Syscalls answered with `ENOSYS`, as a kernel that lacks them would: the
/// ring, and `clone3`, whose flags live in memory this filter cannot read.
pub open spec fn no_syscall_list() -> Seq<u32> {
    seq![SYS_IO_URING_SETUP, SYS_IO_URING_ENTER, SYS_IO_URING_REGISTER, SYS_CLONE3]
}

/// Which egress channels this run is allowed.
#[derive(Clone, Copy, PartialEq, Eq, Debug, Structural)]
pub enum Egress {
    /// No network rule: the baseline alone.
    Open,
    /// `--allow-net` names TCP ports. Landlock holds the port rule; the
    /// baseline closes the families a TCP rule cannot see, and an internet
    /// socket must be TCP, which closes UDP, SCTP and ICMP echo.
    TcpPorts,
    /// The loopback proxy is the only permitted egress.
    ProxyOnly,
}

// ---------------------------------------------------------------------------
// The program, instruction by instruction
// ---------------------------------------------------------------------------

pub open spec fn ld(offset: u32) -> Pending {
    Pending { code: LD_W_ABS, k: offset, when_true: Target::Next, when_false: Target::Next }
}

pub open spec fn and_k(bits: u32) -> Pending {
    Pending { code: ALU_AND_K, k: bits, when_true: Target::Next, when_false: Target::Next }
}

pub open spec fn jeq(value: u32, when_true: Target, when_false: Target) -> Pending {
    Pending { code: JMP_JEQ_K, k: value, when_true, when_false }
}

pub open spec fn jset(bits: u32, when_true: Target, when_false: Target) -> Pending {
    Pending { code: JMP_JSET_K, k: bits, when_true, when_false }
}

pub open spec fn to(verdict: Verdict) -> Target {
    Target::Verdict(verdict)
}

/// The architecture must be the one these syscall numbers belong to; then
/// the syscall number is loaded.
pub open spec fn header_ops(abi: &SyscallAbi) -> Seq<Pending> {
    seq![ld(OFFSET_ARCH), jeq(abi.audit_arch, Target::Next, to(Verdict::Kill)), ld(OFFSET_NR)]
}

/// The syscalls refused outright.
pub open spec fn refusal_ops(abi: &SyscallAbi) -> Seq<Pending> {
    refuse_ops(abi.denied@, Verdict::Eperm) + refuse_ops(abi.denied_arch@, Verdict::Eperm)
        + refuse_ops(no_syscall_list(), Verdict::Enosys)
}

/// `clone` asking for any new namespace.
pub open spec fn clone_body() -> Seq<Pending> {
    seq![ld(16), jset(CLONE_NEWNS_ANY, to(Verdict::Eperm), to(Verdict::Allow))]
}

/// `ioctl` pushing input into a terminal.
pub open spec fn ioctl_body() -> Seq<Pending> {
    seq![ld(24), jeq(TIOCSTI, to(Verdict::Eperm), Target::Next), jeq(TIOCLINUX, to(Verdict::Eperm), to(Verdict::Allow))]
}

/// `execveat` of a descriptor with no path: a memory file, most likely.
pub open spec fn execveat_body() -> Seq<Pending> {
    seq![ld(48), jset(AT_EMPTY_PATH, to(Verdict::Eperm), to(Verdict::Allow))]
}

/// Multipath TCP never, raw sockets never, and the high word of `type`
/// empty.
pub open spec fn socket_prelude(abi: &SyscallAbi) -> Seq<Pending> {
    let refuse = to(Verdict::Eafnosupport);
    seq![
        ld(32), jeq(IPPROTO_MPTCP, to(Verdict::Eprotonosupport), Target::Next),
        ld(28), jeq(0, Target::Next, refuse),
        ld(24), and_k(SOCK_TYPE_MASK), jeq(abi.sock_raw, refuse, Target::Next)
    ]
}

/// Proxy-only: a plain TCP socket over IPv4, and nothing else.
pub open spec fn proxy_only_ops(abi: &SyscallAbi) -> Seq<Pending> {
    let refuse = to(Verdict::Eafnosupport);
    seq![
        jeq(abi.sock_stream, Target::Next, refuse),
        ld(20), jeq(0, Target::Next, refuse),
        ld(16), jeq(abi.af_inet, to(Verdict::Allow), refuse)
    ]
}

/// TCP ports: an internet socket must be a TCP stream; any other family goes
/// on to the domain checks.
pub open spec fn tcp_ports_ops(abi: &SyscallAbi) -> Seq<Pending> {
    let refuse = to(Verdict::Eafnosupport);
    seq![
        ld(20), jeq(0, Target::Next, refuse),
        ld(16), jeq(abi.af_inet, Target::Ahead(1), Target::Next), jeq(abi.af_inet6, Target::Next, Target::Ahead(6)),
        ld(24), and_k(SOCK_TYPE_MASK), jeq(abi.sock_stream, Target::Next, refuse),
        ld(32), jeq(0, to(Verdict::Allow), Target::Next), jeq(abi.ipproto_tcp, to(Verdict::Allow), refuse)
    ]
}

/// The domain: the high word empty, none of the families no command needs,
/// and netlink for the routing family only.
pub open spec fn domain_ops(abi: &SyscallAbi) -> Seq<Pending> {
    let refuse = to(Verdict::Eafnosupport);
    seq![
        ld(20), jeq(0, Target::Next, refuse),
        ld(16), jeq(abi.af_packet, refuse, Target::Next), jeq(abi.af_bluetooth, refuse, Target::Next),
        jeq(abi.af_vsock, refuse, Target::Next), jeq(abi.af_netlink, Target::Next, to(Verdict::Allow)),
        ld(32), jeq(NETLINK_ROUTE, to(Verdict::Allow), refuse)
    ]
}

/// What `socket(2)` may ask for under `egress`.
pub open spec fn socket_ops(egress: Egress, abi: &SyscallAbi) -> Seq<Pending> {
    match egress {
        Egress::ProxyOnly => socket_prelude(abi) + proxy_only_ops(abi),
        Egress::TcpPorts => socket_prelude(abi) + tcp_ports_ops(abi) + domain_ops(abi),
        Egress::Open => socket_prelude(abi) + domain_ops(abi),
    }
}

/// The four syscalls whose arguments are looked at.
pub open spec fn block_ops(egress: Egress, abi: &SyscallAbi) -> Seq<Pending> {
    guarded(abi.sys_clone, clone_body()) + guarded(abi.sys_ioctl, ioctl_body())
        + guarded(abi.sys_execveat, execveat_body()) + guarded(abi.sys_socket, socket_ops(egress, abi))
}

/// Everything else passes.
pub open spec fn tail_ops() -> Seq<Pending> {
    seq![Pending { code: JMP_JA, k: 0, when_true: to(Verdict::Allow), when_false: to(Verdict::Allow) }]
}

/// The whole program for one egress mode, before its jumps are measured.
pub open spec fn program_ops(egress: Egress, abi: &SyscallAbi) -> Seq<Pending> {
    header_ops(abi) + refusal_ops(abi) + block_ops(egress, abi) + tail_ops()
}

/// A pending program with its jumps measured and the six verdicts appended.
pub open spec fn finished(ops: Seq<Pending>, errnos: Errnos) -> Seq<Instruction> {
    Seq::new((ops.len() + 6) as nat, |i: int|
        if i < ops.len() {
            resolved(ops[i], i, ops.len() as int)
        } else {
            Instruction { code: RET_K, jt: 0, jf: 0, k: verdict_action(verdict_at(i - ops.len()), errnos) }
        })
}

/// The seccomp program for `egress` under `abi`.
pub open spec fn program(egress: Egress, abi: &SyscallAbi) -> Seq<Instruction> {
    finished(program_ops(egress, abi), abi.errnos)
}

// ---------------------------------------------------------------------------
// Emitting it
// ---------------------------------------------------------------------------

fn emit_header(assembler: &mut Assembler, abi: &SyscallAbi)
    ensures
        final(assembler).ops() == old(assembler).ops() + header_ops(abi),
{
    // arch must be the one these syscall numbers belong to
    assembler.load(OFFSET_ARCH);
    assembler.if_equal(abi.audit_arch, Target::Next, Target::Verdict(Verdict::Kill));
    assembler.load(OFFSET_NR);
    assert(assembler.ops() =~= old(assembler).ops() + header_ops(abi));
}

fn emit_refusals(assembler: &mut Assembler, abi: &SyscallAbi)
    ensures
        final(assembler).ops() == old(assembler).ops() + refusal_ops(abi),
{
    let no_syscall: [u32; 4] = [SYS_IO_URING_SETUP, SYS_IO_URING_ENTER, SYS_IO_URING_REGISTER, SYS_CLONE3];
    assert(no_syscall@ == no_syscall_list());
    assembler.refuse_each(abi.denied.as_slice(), Verdict::Eperm);
    assembler.refuse_each(abi.denied_arch.as_slice(), Verdict::Eperm);
    assembler.refuse_each(&no_syscall, Verdict::Enosys);
    assert(assembler.ops() =~= old(assembler).ops() + refusal_ops(abi));
}

/// The closed form of a block: what `begin_syscall`, a body and
/// `end_syscall` leave behind.
proof fn lemma_block_closed(before: Seq<Pending>, number: u32, body: Seq<Pending>, middle: Seq<Pending>, after: Seq<Pending>)
    requires
        body.len() <= 255,
        middle == before.push(jeq(number, Target::Next, Target::Next)) + body,
        after.len() == middle.len() + 1,
        after[middle.len() as int] == ld(OFFSET_NR),
        after[before.len() as int] == jeq(number, Target::Next, Target::Ahead((middle.len() - before.len() - 1) as u8)),
        forall|j: int| 0 <= j < middle.len() && j != before.len() ==> #[trigger] after[j] == middle[j],
    ensures
        after == before + guarded(number, body),
{
    let expected = before + guarded(number, body);
    assert forall|i: int| 0 <= i < expected.len() implies #[trigger] after[i] == expected[i] by {
        if i < before.len() {
            assert(after[i] == middle[i]);
        } else if i == before.len() {
        } else if i < middle.len() {
            assert(after[i] == middle[i]);
            assert(middle[i] == body[i - before.len() - 1]);
        } else {
        }
    }
    assert(after =~= expected);
}

fn emit_clone(assembler: &mut Assembler, abi: &SyscallAbi)
    ensures
        final(assembler).ops() == old(assembler).ops() + guarded(abi.sys_clone, clone_body()),
{
    let ghost before = assembler.ops();
    let guard = assembler.begin_syscall(abi.sys_clone);
    assembler.load(arg_low(0));
    assembler.if_any(CLONE_NEWNS_ANY, Target::Verdict(Verdict::Eperm), Target::Verdict(Verdict::Allow));
    let ghost middle = assembler.ops();
    assert(middle =~= before.push(jeq(abi.sys_clone, Target::Next, Target::Next)) + clone_body());
    assembler.end_syscall(guard);
    proof { lemma_block_closed(before, abi.sys_clone, clone_body(), middle, assembler.ops()); }
}

fn emit_ioctl(assembler: &mut Assembler, abi: &SyscallAbi)
    ensures
        final(assembler).ops() == old(assembler).ops() + guarded(abi.sys_ioctl, ioctl_body()),
{
    let ghost before = assembler.ops();
    let guard = assembler.begin_syscall(abi.sys_ioctl);
    assembler.load(arg_low(1));
    assembler.if_equal(TIOCSTI, Target::Verdict(Verdict::Eperm), Target::Next);
    assembler.if_equal(TIOCLINUX, Target::Verdict(Verdict::Eperm), Target::Verdict(Verdict::Allow));
    let ghost middle = assembler.ops();
    assert(middle =~= before.push(jeq(abi.sys_ioctl, Target::Next, Target::Next)) + ioctl_body());
    assembler.end_syscall(guard);
    proof { lemma_block_closed(before, abi.sys_ioctl, ioctl_body(), middle, assembler.ops()); }
}

fn emit_execveat(assembler: &mut Assembler, abi: &SyscallAbi)
    ensures
        final(assembler).ops() == old(assembler).ops() + guarded(abi.sys_execveat, execveat_body()),
{
    let ghost before = assembler.ops();
    let guard = assembler.begin_syscall(abi.sys_execveat);
    assembler.load(arg_low(4));
    assembler.if_any(AT_EMPTY_PATH, Target::Verdict(Verdict::Eperm), Target::Verdict(Verdict::Allow));
    let ghost middle = assembler.ops();
    assert(middle =~= before.push(jeq(abi.sys_execveat, Target::Next, Target::Next)) + execveat_body());
    assembler.end_syscall(guard);
    proof { lemma_block_closed(before, abi.sys_execveat, execveat_body(), middle, assembler.ops()); }
}

fn emit_socket_prelude(assembler: &mut Assembler, abi: &SyscallAbi)
    ensures
        final(assembler).ops() == old(assembler).ops() + socket_prelude(abi),
{
    let refuse = Target::Verdict(Verdict::Eafnosupport);
    // protocol: multipath TCP is never a TCP rule's business
    assembler.load(arg_low(2));
    assembler.if_equal(IPPROTO_MPTCP, Target::Verdict(Verdict::Eprotonosupport), Target::Next);
    // type: raw sockets never; the high word must be empty
    assembler.load(arg_high(1));
    assembler.if_equal(0, Target::Next, refuse);
    assembler.load(arg_low(1));
    assembler.mask(SOCK_TYPE_MASK);
    assembler.if_equal(abi.sock_raw, refuse, Target::Next);
    assert(assembler.ops() =~= old(assembler).ops() + socket_prelude(abi));
}

fn emit_proxy_only(assembler: &mut Assembler, abi: &SyscallAbi)
    ensures
        final(assembler).ops() == old(assembler).ops() + proxy_only_ops(abi),
{
    let refuse = Target::Verdict(Verdict::Eafnosupport);
    // only a plain TCP socket, and only over IPv4, may leave
    assembler.if_equal(abi.sock_stream, Target::Next, refuse);
    assembler.load(arg_high(0));
    assembler.if_equal(0, Target::Next, refuse);
    assembler.load(arg_low(0));
    assembler.if_equal(abi.af_inet, Target::Verdict(Verdict::Allow), refuse);
    assert(assembler.ops() =~= old(assembler).ops() + proxy_only_ops(abi));
}

fn emit_tcp_ports(assembler: &mut Assembler, abi: &SyscallAbi)
    ensures
        final(assembler).ops() == old(assembler).ops() + tcp_ports_ops(abi),
{
    let refuse = Target::Verdict(Verdict::Eafnosupport);
    // an internet socket must be a TCP stream, the one thing a port rule
    // speaks for; any other family goes on to the checks below
    assembler.load(arg_high(0));
    assembler.if_equal(0, Target::Next, refuse);
    assembler.load(arg_low(0));
    assembler.if_equal(abi.af_inet, Target::Ahead(1), Target::Next);
    assembler.if_equal(abi.af_inet6, Target::Next, Target::Ahead(6));
    assembler.load(arg_low(1));
    assembler.mask(SOCK_TYPE_MASK);
    assembler.if_equal(abi.sock_stream, Target::Next, refuse);
    assembler.load(arg_low(2));
    assembler.if_equal(0, Target::Verdict(Verdict::Allow), Target::Next);
    assembler.if_equal(abi.ipproto_tcp, Target::Verdict(Verdict::Allow), refuse);
    assert(assembler.ops() =~= old(assembler).ops() + tcp_ports_ops(abi));
}

fn emit_domain(assembler: &mut Assembler, abi: &SyscallAbi)
    ensures
        final(assembler).ops() == old(assembler).ops() + domain_ops(abi),
{
    let refuse = Target::Verdict(Verdict::Eafnosupport);
    // domain: the high word empty, and none of the families no command needs
    assembler.load(arg_high(0));
    assembler.if_equal(0, Target::Next, refuse);
    assembler.load(arg_low(0));
    assembler.if_equal(abi.af_packet, refuse, Target::Next);
    assembler.if_equal(abi.af_bluetooth, refuse, Target::Next);
    assembler.if_equal(abi.af_vsock, refuse, Target::Next);
    // netlink: the routing family only, which a resolver may consult
    assembler.if_equal(abi.af_netlink, Target::Next, Target::Verdict(Verdict::Allow));
    assembler.load(arg_low(2));
    assembler.if_equal(NETLINK_ROUTE, Target::Verdict(Verdict::Allow), refuse);
    assert(assembler.ops() =~= old(assembler).ops() + domain_ops(abi));
}

/// What `socket(2)` may ask for. The accumulator is free on entry.
fn socket_rules(assembler: &mut Assembler, egress: Egress, abi: &SyscallAbi)
    ensures
        final(assembler).ops() == old(assembler).ops() + socket_ops(egress, abi),
{
    emit_socket_prelude(assembler, abi);
    if egress == Egress::ProxyOnly {
        emit_proxy_only(assembler, abi);
        assert(assembler.ops() =~= old(assembler).ops() + socket_ops(egress, abi));
        return;
    }
    if egress == Egress::TcpPorts {
        emit_tcp_ports(assembler, abi);
    }
    emit_domain(assembler, abi);
    assert(assembler.ops() =~= old(assembler).ops() + socket_ops(egress, abi));
}

fn emit_socket(assembler: &mut Assembler, egress: Egress, abi: &SyscallAbi)
    ensures
        final(assembler).ops() == old(assembler).ops() + guarded(abi.sys_socket, socket_ops(egress, abi)),
{
    let ghost before = assembler.ops();
    let guard = assembler.begin_syscall(abi.sys_socket);
    socket_rules(assembler, egress, abi);
    let ghost middle = assembler.ops();
    assert(middle =~= before.push(jeq(abi.sys_socket, Target::Next, Target::Next)) + socket_ops(egress, abi));
    assembler.end_syscall(guard);
    proof { lemma_block_closed(before, abi.sys_socket, socket_ops(egress, abi), middle, assembler.ops()); }
}

proof fn lemma_program_shape(egress: Egress, abi: &SyscallAbi)
    requires
        abi.wf(),
    ensures
        program_ops(egress, abi).len() + 6 <= 255,
        aheads_local(program_ops(egress, abi)),
{
    let s = socket_ops(egress, abi);
    assert(aheads_local(socket_prelude(abi)));
    assert(aheads_local(domain_ops(abi)));
    assert(aheads_local(proxy_only_ops(abi)));
    let t = tcp_ports_ops(abi) + domain_ops(abi);
    assert(aheads_local(t)) by {
        assert forall|i: int| 0 <= i < t.len() implies ahead_within(#[trigger] t[i].when_true, i, t.len() as int)
            && ahead_within(t[i].when_false, i, t.len() as int) by {
            if i < 11 {
                assert(t[i] == tcp_ports_ops(abi)[i]);
            } else {
                assert(t[i] == domain_ops(abi)[i - 11]);
            }
        }
    }
    lemma_aheads_concat(socket_prelude(abi), proxy_only_ops(abi));
    lemma_aheads_concat(socket_prelude(abi), t);
    assert(socket_prelude(abi) + t =~= socket_prelude(abi) + tcp_ports_ops(abi) + domain_ops(abi));
    lemma_aheads_concat(socket_prelude(abi), domain_ops(abi));
    lemma_aheads_guarded(abi.sys_clone, clone_body());
    lemma_aheads_guarded(abi.sys_ioctl, ioctl_body());
    lemma_aheads_guarded(abi.sys_execveat, execveat_body());
    lemma_aheads_guarded(abi.sys_socket, s);
    lemma_aheads_concat(guarded(abi.sys_clone, clone_body()), guarded(abi.sys_ioctl, ioctl_body()));
    lemma_aheads_concat(guarded(abi.sys_clone, clone_body()) + guarded(abi.sys_ioctl, ioctl_body()), guarded(abi.sys_execveat, execveat_body()));
    lemma_aheads_concat(guarded(abi.sys_clone, clone_body()) + guarded(abi.sys_ioctl, ioctl_body()) + guarded(abi.sys_execveat, execveat_body()), guarded(abi.sys_socket, s));
    lemma_aheads_refuse(abi.denied@, Verdict::Eperm);
    lemma_aheads_refuse(abi.denied_arch@, Verdict::Eperm);
    lemma_aheads_refuse(no_syscall_list(), Verdict::Enosys);
    lemma_aheads_concat(refuse_ops(abi.denied@, Verdict::Eperm), refuse_ops(abi.denied_arch@, Verdict::Eperm));
    lemma_aheads_concat(refuse_ops(abi.denied@, Verdict::Eperm) + refuse_ops(abi.denied_arch@, Verdict::Eperm), refuse_ops(no_syscall_list(), Verdict::Enosys));
    assert(aheads_local(header_ops(abi)));
    assert(aheads_local(tail_ops()));
    lemma_aheads_concat(header_ops(abi), refusal_ops(abi));
    lemma_aheads_concat(header_ops(abi) + refusal_ops(abi), block_ops(egress, abi));
    lemma_aheads_concat(header_ops(abi) + refusal_ops(abi) + block_ops(egress, abi), tail_ops());
}

/// The program for one egress mode.
pub fn assemble(egress: Egress, abi: &SyscallAbi) -> (code: Vec<Instruction>)
    requires
        abi.wf(),
    ensures
        code@ == program(egress, abi),
        jumps_land_inside(code@),
        code@.len() < 4096,
{
    let mut assembler = Assembler::new();
    emit_header(&mut assembler, abi);
    emit_refusals(&mut assembler, abi);
    emit_clone(&mut assembler, abi);
    emit_ioctl(&mut assembler, abi);
    emit_execveat(&mut assembler, abi);
    emit_socket(&mut assembler, egress, abi);
    assembler.jump(Target::Verdict(Verdict::Allow));
    assert(assembler.ops() =~= program_ops(egress, abi));
    proof { lemma_program_shape(egress, abi); }
    let code = assembler.finish(&abi.errnos);
    proof {
        let ops = program_ops(egress, abi);
        let n = ops.len();
        let expected = program(egress, abi);
        assert forall|i: int| 0 <= i < expected.len() implies #[trigger] code@[i] == expected[i] by {
            if i >= n {
                let v = i - n;
                assert(code@[n + v] == (Instruction { code: RET_K, jt: 0, jf: 0, k: verdict_action(verdict_at(v), abi.errnos) }));
            }
        }
        assert(code@ =~= expected);
    }
    code
}

/// Builds the program for `egress`. Called in the parent, before any fork,
/// so the child finds it ready.
pub fn prepare(egress: Egress, abi: &SyscallAbi) -> (code: Vec<Instruction>)
    requires
        abi.wf(),
    ensures
        code@ == program(egress, abi),
        jumps_land_inside(code@),
        code@.len() < 4096,
{
    assemble(egress, abi)
}

} // verus!
