//! What the programs do, run the way the kernel runs them: a small BPF
//! interpreter over one `seccomp_data`, and what it answers for the calls
//! the filter exists to refuse and for every other call.

use vstd::prelude::*;
use super::assembler::{
    distance, guarded, landing, refuse_ops, resolved, verdict_action, verdict_at, verdict_index, Errnos, Instruction,
    Pending, Target, Verdict, ACTION_ALLOW, ACTION_KILL_PROCESS, ALU_AND_K, JMP_JA, JMP_JEQ_K, JMP_JSET_K, LD_W_ABS,
    RET_K,
};
use super::{
    block_ops, clone_body, execveat_body, finished, header_ops, ioctl_body, no_syscall_list, program, program_ops,
    refusal_ops, socket_ops, socket_prelude, proxy_only_ops, tcp_ports_ops, domain_ops, tail_ops, Egress, SyscallAbi,
    AT_EMPTY_PATH, CLONE_NEWNS_ANY, IPPROTO_MPTCP, NETLINK_ROUTE, SOCK_TYPE_MASK, TIOCLINUX, TIOCSTI,
};

verus! {

/// Word `index` of `struct seccomp_data` for one call: the syscall number,
/// the architecture token, the instruction pointer (zero here), then each
/// argument as its low and its high half.
pub open spec fn data_word(arch: u32, nr: u32, args: Seq<u64>, index: int) -> u32 {
    if index == 0 {
        nr
    } else if index == 1 {
        arch
    } else if 4 <= index < 16 {
        let arg = args[(index - 4) / 2];
        if (index - 4) % 2 == 0 { (arg % 0x1_0000_0000) as u32 } else { (arg / 0x1_0000_0000) as u32 }
    } else {
        0
    }
}

/// The program run from instruction `pc` with `acc` in the accumulator: the
/// action it returns, or `None` if it runs off its end or meets an
/// instruction it does not know.
pub open spec fn run_from(program: Seq<Instruction>, arch: u32, nr: u32, args: Seq<u64>, pc: int, acc: u32) -> Option<u32>
    decreases (if 0 <= pc <= program.len() { program.len() - pc } else { 0 }),
{
    if pc < 0 || pc >= program.len() {
        None
    } else {
        let ins = program[pc];
        if ins.code == LD_W_ABS {
            run_from(program, arch, nr, args, pc + 1, data_word(arch, nr, args, (ins.k / 4) as int))
        } else if ins.code == ALU_AND_K {
            run_from(program, arch, nr, args, pc + 1, acc & ins.k)
        } else if ins.code == JMP_JA {
            run_from(program, arch, nr, args, pc + 1 + ins.k, acc)
        } else if ins.code == JMP_JEQ_K {
            run_from(program, arch, nr, args, pc + 1 + (if acc == ins.k { ins.jt } else { ins.jf }), acc)
        } else if ins.code == JMP_JSET_K {
            run_from(program, arch, nr, args, pc + 1 + (if acc & ins.k != 0 { ins.jt } else { ins.jf }), acc)
        } else if ins.code == RET_K {
            Some(ins.k)
        } else {
            None
        }
    }
}

/// The low half of a 64-bit argument, as the filter loads it.
pub open spec fn low_half(arg: u64) -> u32 {
    (arg % 0x1_0000_0000) as u32
}

/// The high half of a 64-bit argument.
pub open spec fn high_half(arg: u64) -> u32 {
    (arg / 0x1_0000_0000) as u32
}

/// How `socket(2)` is answered for a family the internet rules do not
/// cover: flags beyond the low word never, packet, Bluetooth and vsock
/// never, netlink for the routing family only, anything else yes.
pub open spec fn family_verdict(abi: &SyscallAbi, domain: u64, protocol: u64) -> Verdict {
    let family = low_half(domain);
    if high_half(domain) != 0 {
        Verdict::Eafnosupport
    } else if family == abi.af_packet || family == abi.af_bluetooth || family == abi.af_vsock {
        Verdict::Eafnosupport
    } else if family == abi.af_netlink {
        if low_half(protocol) == NETLINK_ROUTE { Verdict::Allow } else { Verdict::Eafnosupport }
    } else {
        Verdict::Allow
    }
}

/// How `socket(domain, type, protocol)` is answered under `egress`.
/// Multipath TCP never, raw sockets never, flags beyond the low word of
/// `type` never. Then: with the proxy as the only egress, a plain TCP stream
/// over IPv4 and nothing else; with TCP port rules, an internet socket must be
/// a TCP stream and any other family goes by [`family_verdict`]; with no
/// network rule, every family goes by [`family_verdict`].
pub open spec fn socket_verdict(egress: Egress, abi: &SyscallAbi, domain: u64, kind: u64, protocol: u64) -> Verdict {
    let family = low_half(domain);
    let sock_type = low_half(kind) & SOCK_TYPE_MASK;
    let proto = low_half(protocol);
    if proto == IPPROTO_MPTCP {
        Verdict::Eprotonosupport
    } else if high_half(kind) != 0 || sock_type == abi.sock_raw {
        Verdict::Eafnosupport
    } else {
        match egress {
            Egress::ProxyOnly => {
                if sock_type == abi.sock_stream && high_half(domain) == 0 && family == abi.af_inet {
                    Verdict::Allow
                } else {
                    Verdict::Eafnosupport
                }
            },
            Egress::TcpPorts => {
                if high_half(domain) != 0 {
                    Verdict::Eafnosupport
                } else if family == abi.af_inet || family == abi.af_inet6 {
                    if sock_type == abi.sock_stream && (proto == 0 || proto == abi.ipproto_tcp) {
                        Verdict::Allow
                    } else {
                        Verdict::Eafnosupport
                    }
                } else {
                    family_verdict(abi, domain, protocol)
                }
            },
            Egress::Open => family_verdict(abi, domain, protocol),
        }
    }
}

/// What the filter answers for one call: syscall `nr` with `args` under
/// the architecture token `arch`.
pub open spec fn filter_action(program: Seq<Instruction>, arch: u32, nr: u32, args: Seq<u64>) -> Option<u32> {
    run_from(program, arch, nr, args, 0, 0)
}

/// The error action for errno `errno`.
pub open spec fn errno_action(errno: u32) -> u32 {
    (0x0005_0000 + errno) as u32
}

/// Whether `nr` is refused by its number alone, whatever its arguments.
pub open spec fn singled_by_number(abi: &SyscallAbi, nr: u32) -> bool {
    ||| abi.denied@.contains(nr)
    ||| abi.denied_arch@.contains(nr)
    ||| no_syscall_list().contains(nr)
}

/// Whether `nr` is a call the filter looks at, or refuses by number.
pub open spec fn singled_out(abi: &SyscallAbi, nr: u32) -> bool {
    ||| abi.denied@.contains(nr)
    ||| abi.denied_arch@.contains(nr)
    ||| no_syscall_list().contains(nr)
    ||| nr == abi.sys_clone
    ||| nr == abi.sys_ioctl
    ||| nr == abi.sys_execveat
    ||| nr == abi.sys_socket
}

// ---------------------------------------------------------------------------
// Where each part of the program sits
// ---------------------------------------------------------------------------

/// The pending program at the positions of each of its parts.
proof fn lemma_layout(egress: Egress, abi: &SyscallAbi)
    requires
        abi.wf(),
    ensures
        ({
            let ops = program_ops(egress, abi);
            let d1 = abi.denied@.len() as int;
            let d2 = abi.denied_arch@.len() as int;
            let blocks = 3 + d1 + d2 + 4;
            let s = socket_ops(egress, abi).len() as int;
            &&& ops.len() == blocks + 13 + s + 3
            &&& ops[0] == header_ops(abi)[0]
            &&& ops[1] == header_ops(abi)[1]
            &&& ops[2] == header_ops(abi)[2]
            &&& forall|m: int| 0 <= m < d1 ==> #[trigger] ops[3 + m] == refuse_ops(abi.denied@, Verdict::Eperm)[m]
            &&& forall|m: int| 0 <= m < d2 ==> #[trigger] ops[3 + d1 + m] == refuse_ops(abi.denied_arch@, Verdict::Eperm)[m]
            &&& forall|m: int| 0 <= m < 4 ==> #[trigger] ops[3 + d1 + d2 + m] == refuse_ops(no_syscall_list(), Verdict::Enosys)[m]
            &&& forall|m: int| 0 <= m < 4 ==> #[trigger] ops[blocks + m] == guarded(abi.sys_clone, clone_body())[m]
            &&& forall|m: int| 0 <= m < 5 ==> #[trigger] ops[blocks + 4 + m] == guarded(abi.sys_ioctl, ioctl_body())[m]
            &&& forall|m: int| 0 <= m < 4 ==> #[trigger] ops[blocks + 9 + m] == guarded(abi.sys_execveat, execveat_body())[m]
            &&& forall|m: int| 0 <= m < s + 2 ==> #[trigger] ops[blocks + 13 + m] == guarded(abi.sys_socket, socket_ops(egress, abi))[m]
            &&& ops[blocks + 13 + s + 2] == tail_ops()[0]
        }),
{
    let ops = program_ops(egress, abi);
    let h = header_ops(abi);
    let r = refusal_ops(abi);
    let b = block_ops(egress, abi);
    let d1 = abi.denied@.len() as int;
    let d2 = abi.denied_arch@.len() as int;
    let r1 = refuse_ops(abi.denied@, Verdict::Eperm);
    let r2 = refuse_ops(abi.denied_arch@, Verdict::Eperm);
    let r3 = refuse_ops(no_syscall_list(), Verdict::Enosys);
    let g1 = guarded(abi.sys_clone, clone_body());
    let g2 = guarded(abi.sys_ioctl, ioctl_body());
    let g3 = guarded(abi.sys_execveat, execveat_body());
    let g4 = guarded(abi.sys_socket, socket_ops(egress, abi));
    assert(ops == h + r + b + tail_ops());
    assert(r == r1 + r2 + r3);
    assert(b == g1 + g2 + g3 + g4);
    let blocks = 3 + d1 + d2 + 4;
    assert forall|m: int| 0 <= m < d1 implies #[trigger] ops[3 + m] == r1[m] by {
        assert(ops[3 + m] == r[m]);
        assert(r[m] == r1[m]);
    }
    assert forall|m: int| 0 <= m < d2 implies #[trigger] ops[3 + d1 + m] == r2[m] by {
        assert(ops[3 + d1 + m] == r[d1 + m]);
        assert(r[d1 + m] == r2[m]);
    }
    assert forall|m: int| 0 <= m < 4 implies #[trigger] ops[3 + d1 + d2 + m] == r3[m] by {
        assert(ops[3 + d1 + d2 + m] == r[d1 + d2 + m]);
        assert(r[d1 + d2 + m] == r3[m]);
    }
    assert forall|m: int| 0 <= m < 4 implies #[trigger] ops[blocks + m] == g1[m] by {
        assert(ops[blocks + m] == b[m]);
    }
    assert forall|m: int| 0 <= m < 5 implies #[trigger] ops[blocks + 4 + m] == g2[m] by {
        assert(ops[blocks + 4 + m] == b[4 + m]);
    }
    assert forall|m: int| 0 <= m < 4 implies #[trigger] ops[blocks + 9 + m] == g3[m] by {
        assert(ops[blocks + 9 + m] == b[9 + m]);
    }
    assert forall|m: int| 0 <= m < g4.len() implies #[trigger] ops[blocks + 13 + m] == g4[m] by {
        assert(ops[blocks + 13 + m] == b[13 + m]);
    }
}

// ---------------------------------------------------------------------------
// One instruction at a time
// ---------------------------------------------------------------------------

/// Whether a conditional jump is taken with `acc` in the accumulator.
pub open spec fn taken(p: Pending, acc: u32) -> bool {
    if p.code == JMP_JEQ_K { acc == p.k } else { acc & p.k != 0 }
}

/// A load puts the word at its offset in the accumulator and goes on.
proof fn lemma_load(prog: Seq<Instruction>, ops: Seq<Pending>, errnos: Errnos, i: int, arch: u32, nr: u32, args: Seq<u64>, acc: u32)
    requires
        prog == finished(ops, errnos),
        ops.len() + 6 <= 255,
        0 <= i < ops.len(),
        ops[i].code == LD_W_ABS,
    ensures
        run_from(prog, arch, nr, args, i, acc) == run_from(prog, arch, nr, args, i + 1, data_word(arch, nr, args, (ops[i].k / 4) as int)),
{
    assert(prog[i] == resolved(ops[i], i, ops.len() as int));
}

/// A mask keeps the accumulator's bits that it names and goes on.
proof fn lemma_mask(prog: Seq<Instruction>, ops: Seq<Pending>, errnos: Errnos, i: int, arch: u32, nr: u32, args: Seq<u64>, acc: u32)
    requires
        prog == finished(ops, errnos),
        ops.len() + 6 <= 255,
        0 <= i < ops.len(),
        ops[i].code == ALU_AND_K,
    ensures
        run_from(prog, arch, nr, args, i, acc) == run_from(prog, arch, nr, args, i + 1, acc & ops[i].k),
{
    assert(prog[i] == resolved(ops[i], i, ops.len() as int));
}

/// A conditional jump goes on where its taken or its untaken target says.
proof fn lemma_branch(prog: Seq<Instruction>, ops: Seq<Pending>, errnos: Errnos, i: int, arch: u32, nr: u32, args: Seq<u64>, acc: u32)
    requires
        prog == finished(ops, errnos),
        ops.len() + 6 <= 255,
        0 <= i < ops.len(),
        ops[i].code == JMP_JEQ_K || ops[i].code == JMP_JSET_K,
    ensures
        run_from(prog, arch, nr, args, i, acc) == run_from(prog, arch, nr, args,
            landing(if taken(ops[i], acc) { ops[i].when_true } else { ops[i].when_false }, i, ops.len() as int), acc),
{
    let n = ops.len() as int;
    assert(prog[i] == resolved(ops[i], i, n));
    assert(0 <= distance(ops[i].when_true, i, n) < 256);
    assert(0 <= distance(ops[i].when_false, i, n) < 256);
}

/// A verdict returns its action.
proof fn lemma_verdict(prog: Seq<Instruction>, ops: Seq<Pending>, errnos: Errnos, verdict: Verdict, arch: u32, nr: u32, args: Seq<u64>, acc: u32)
    requires
        prog == finished(ops, errnos),
    ensures
        run_from(prog, arch, nr, args, ops.len() + verdict_index(verdict), acc) == Some(verdict_action(verdict, errnos)),
{
    assert(verdict_at(verdict_index(verdict)) == verdict);
}

// ---------------------------------------------------------------------------
// Running through the parts
// ---------------------------------------------------------------------------

/// Through a run of refusals with the syscall number in the accumulator: a
/// number on the list gets the run's verdict, any other goes on past it.
proof fn lemma_refusals(
    prog: Seq<Instruction>, ops: Seq<Pending>, errnos: Errnos, base: int, list: Seq<u32>, verdict: Verdict,
    j: int, arch: u32, nr: u32, args: Seq<u64>,
)
    requires
        prog == finished(ops, errnos),
        ops.len() + 6 <= 255,
        0 <= base,
        base + list.len() <= ops.len(),
        0 <= j <= list.len(),
        forall|m: int| 0 <= m < list.len() ==> #[trigger] ops[base + m] == refuse_ops(list, verdict)[m],
    ensures
        (exists|m: int| j <= m < list.len() && list[m] == nr) ==> run_from(prog, arch, nr, args, base + j, nr)
            == Some(verdict_action(verdict, errnos)),
        (forall|m: int| j <= m < list.len() ==> list[m] != nr) ==> run_from(prog, arch, nr, args, base + j, nr)
            == run_from(prog, arch, nr, args, base + list.len(), nr),
    decreases list.len() - j,
{
    if j < list.len() {
        lemma_refusals(prog, ops, errnos, base, list, verdict, j + 1, arch, nr, args);
        let n = ops.len() as int;
        let i = base + j;
        assert(ops[base + j] == refuse_ops(list, verdict)[j]);
        let ins = prog[i];
        assert(ins == resolved(ops[i], i, n));
        assert(ins.code == JMP_JEQ_K);
        assert(ins.k == list[j]);
        assert(ins.jt == distance(Target::Verdict(verdict), i, n));
        assert(ins.jf == 0);
        let land = n + verdict_index(verdict);
        assert(verdict_at(verdict_index(verdict)) == verdict);
        assert(prog[land] == (Instruction { code: RET_K, jt: 0, jf: 0, k: verdict_action(verdict, errnos) }));
        if list[j] == nr {
            assert(run_from(prog, arch, nr, args, land, nr) == Some(verdict_action(verdict, errnos)));
        } else {
            if exists|m: int| j <= m < list.len() && list[m] == nr {
                let m = choose|m: int| j <= m < list.len() && list[m] == nr;
                assert(j + 1 <= m);
            }
        }
    }
}

/// Past a guarded block whose syscall is not this one: the guard jumps to
/// the reload, which puts the syscall number back in the accumulator.
proof fn lemma_skip_block(
    prog: Seq<Instruction>, ops: Seq<Pending>, errnos: Errnos, g: int, number: u32, body: Seq<Pending>,
    arch: u32, nr: u32, args: Seq<u64>,
)
    requires
        prog == finished(ops, errnos),
        ops.len() + 6 <= 255,
        0 <= g,
        g + body.len() + 2 <= ops.len(),
        forall|m: int| 0 <= m < body.len() + 2 ==> #[trigger] ops[g + m] == guarded(number, body)[m],
        nr != number,
    ensures
        run_from(prog, arch, nr, args, g, nr) == run_from(prog, arch, nr, args, g + body.len() + 2, nr),
{
    let n = ops.len() as int;
    let blk = guarded(number, body);
    assert(body.len() <= 255);
    assert(ops[g + 0] == blk[0]);
    let reload = g + body.len() + 1;
    assert(ops[g + (body.len() + 1)] == blk[body.len() as int + 1]);
    assert(prog[g] == resolved(ops[g], g, n));
    assert(prog[g].code == JMP_JEQ_K && prog[g].k == number);
    assert(prog[g].jf == body.len());
    assert(prog[reload] == resolved(ops[reload], reload, n));
    assert(prog[reload].code == LD_W_ABS && prog[reload].k == 0);
    assert(data_word(arch, nr, args, 0) == nr);
    assert(run_from(prog, arch, nr, args, reload, nr) == run_from(prog, arch, nr, args, reload + 1, nr));
    assert(run_from(prog, arch, nr, args, g, nr) == run_from(prog, arch, nr, args, reload, nr));
}

/// From the start of the program to the refusals, for the architecture
/// the numbers belong to.
proof fn lemma_header(egress: Egress, abi: &SyscallAbi, nr: u32, args: Seq<u64>)
    requires
        abi.wf(),
    ensures
        filter_action(program(egress, abi), abi.audit_arch, nr, args) == run_from(program(egress, abi), abi.audit_arch, nr, args, 3, nr),
{
    lemma_layout(egress, abi);
    let ops = program_ops(egress, abi);
    let n = ops.len() as int;
    let prog = program(egress, abi);
    assert(prog[0] == resolved(ops[0], 0, n));
    assert(prog[1] == resolved(ops[1], 1, n));
    assert(prog[2] == resolved(ops[2], 2, n));
    assert(prog[0].code == LD_W_ABS && prog[0].k == 4);
    assert(prog[1].code == JMP_JEQ_K && prog[1].k == abi.audit_arch);
    assert(prog[1].jt == 0);
    assert(prog[2].code == LD_W_ABS && prog[2].k == 0);
    assert(data_word(abi.audit_arch, nr, args, 0) == nr);
    assert(data_word(abi.audit_arch, nr, args, 1) == abi.audit_arch);
    assert(run_from(prog, abi.audit_arch, nr, args, 2, abi.audit_arch) == run_from(prog, abi.audit_arch, nr, args, 3, nr));
    assert(run_from(prog, abi.audit_arch, nr, args, 1, abi.audit_arch) == run_from(prog, abi.audit_arch, nr, args, 2, abi.audit_arch));
    assert(run_from(prog, abi.audit_arch, nr, args, 0, 0) == run_from(prog, abi.audit_arch, nr, args, 1, abi.audit_arch));
}

/// The last instruction sends whatever reaches it to `Allow`.
proof fn lemma_tail(egress: Egress, abi: &SyscallAbi, nr: u32, args: Seq<u64>)
    requires
        abi.wf(),
    ensures
        run_from(program(egress, abi), abi.audit_arch, nr, args, program_ops(egress, abi).len() - 1, nr) == Some(ACTION_ALLOW),
{
    lemma_layout(egress, abi);
    let ops = program_ops(egress, abi);
    let prog = program(egress, abi);
    let n = ops.len() as int;
    let last = n - 1;
    assert(ops[last] == tail_ops()[0]);
    assert(prog[last] == resolved(ops[last], last, n));
    assert(prog[last].code == JMP_JA && prog[last].k == 0);
    assert(verdict_at(0) == Verdict::Allow);
    assert(prog[n].code == RET_K && prog[n].k == ACTION_ALLOW);
    assert(run_from(prog, abi.audit_arch, nr, args, n, nr) == Some(ACTION_ALLOW));
}

/// Past the four guarded blocks for a call none of them is for.
proof fn lemma_blocks(egress: Egress, abi: &SyscallAbi, nr: u32, args: Seq<u64>)
    requires
        abi.wf(),
        nr != abi.sys_clone,
        nr != abi.sys_ioctl,
        nr != abi.sys_execveat,
        nr != abi.sys_socket,
    ensures
        ({
            let blocks = 3 + abi.denied@.len() as int + abi.denied_arch@.len() as int + 4;
            run_from(program(egress, abi), abi.audit_arch, nr, args, blocks, nr)
                == run_from(program(egress, abi), abi.audit_arch, nr, args, program_ops(egress, abi).len() - 1, nr)
        }),
{
    lemma_layout(egress, abi);
    let ops = program_ops(egress, abi);
    let prog = program(egress, abi);
    let blocks = 3 + abi.denied@.len() as int + abi.denied_arch@.len() as int + 4;
    lemma_skip_block(prog, ops, abi.errnos, blocks, abi.sys_clone, clone_body(), abi.audit_arch, nr, args);
    lemma_skip_block(prog, ops, abi.errnos, blocks + 4, abi.sys_ioctl, ioctl_body(), abi.audit_arch, nr, args);
    lemma_skip_block(prog, ops, abi.errnos, blocks + 9, abi.sys_execveat, execveat_body(), abi.audit_arch, nr, args);
    lemma_skip_block(prog, ops, abi.errnos, blocks + 13, abi.sys_socket, socket_ops(egress, abi), abi.audit_arch, nr, args);
}

/// From the start of the program to the four guarded blocks, for a call no
/// refusal list names.
proof fn lemma_to_blocks(egress: Egress, abi: &SyscallAbi, nr: u32, args: Seq<u64>)
    requires
        abi.wf(),
        !abi.denied@.contains(nr),
        !abi.denied_arch@.contains(nr),
        !no_syscall_list().contains(nr),
    ensures
        ({
            let blocks = 3 + abi.denied@.len() as int + abi.denied_arch@.len() as int + 4;
            filter_action(program(egress, abi), abi.audit_arch, nr, args)
                == run_from(program(egress, abi), abi.audit_arch, nr, args, blocks, nr)
        }),
{
    lemma_layout(egress, abi);
    lemma_header(egress, abi, nr, args);
    let ops = program_ops(egress, abi);
    let prog = program(egress, abi);
    let d1 = abi.denied@.len() as int;
    let d2 = abi.denied_arch@.len() as int;
    assert forall|m: int| 0 <= m < d1 implies abi.denied@[m] != nr by {
        if abi.denied@[m] == nr { assert(abi.denied@.contains(nr)); }
    }
    assert forall|m: int| 0 <= m < d2 implies abi.denied_arch@[m] != nr by {
        if abi.denied_arch@[m] == nr { assert(abi.denied_arch@.contains(nr)); }
    }
    assert forall|m: int| 0 <= m < 4 implies no_syscall_list()[m] != nr by {
        if no_syscall_list()[m] == nr { assert(no_syscall_list().contains(nr)); }
    }
    lemma_refusals(prog, ops, abi.errnos, 3, abi.denied@, Verdict::Eperm, 0, abi.audit_arch, nr, args);
    lemma_refusals(prog, ops, abi.errnos, 3 + d1, abi.denied_arch@, Verdict::Eperm, 0, abi.audit_arch, nr, args);
    lemma_refusals(prog, ops, abi.errnos, 3 + d1 + d2, no_syscall_list(), Verdict::Enosys, 0, abi.audit_arch, nr, args);
}

/// Segment `segment` sits at `at` in the pending program.
pub open spec fn sits_at(ops: Seq<Pending>, at: int, segment: Seq<Pending>) -> bool {
    &&& 0 <= at
    &&& at + segment.len() <= ops.len()
    &&& forall|m: int| 0 <= m < segment.len() ==> #[trigger] ops[at + m] == segment[m]
}

/// Through the checks every socket meets: the protocol, the flags and raw
/// sockets; what survives goes on with its type in the accumulator.
#[verifier::spinoff_prover]
#[verifier::rlimit(40)]
proof fn lemma_socket_prelude(prog: Seq<Instruction>, ops: Seq<Pending>, abi: &SyscallAbi, b: int, nr: u32, args: Seq<u64>)
    requires
        prog == finished(ops, abi.errnos),
        ops.len() + 6 <= 255,
        sits_at(ops, b, socket_prelude(abi)),
    ensures
        ({
            let e = abi.errnos;
            let arch = abi.audit_arch;
            let sock_type = low_half(args[1]) & SOCK_TYPE_MASK;
            run_from(prog, arch, nr, args, b, nr) == if low_half(args[2]) == IPPROTO_MPTCP {
                Some(verdict_action(Verdict::Eprotonosupport, e))
            } else if high_half(args[1]) != 0 || sock_type == abi.sock_raw {
                Some(verdict_action(Verdict::Eafnosupport, e))
            } else {
                run_from(prog, arch, nr, args, b + 7, sock_type)
            }
        }),
{
    let e = abi.errnos;
    let arch = abi.audit_arch;
    let seg = socket_prelude(abi);
    assert(ops[b + 0] == seg[0]);
    assert(ops[b + 1] == seg[1]);
    assert(ops[b + 2] == seg[2]);
    assert(ops[b + 3] == seg[3]);
    assert(ops[b + 4] == seg[4]);
    assert(ops[b + 5] == seg[5]);
    assert(ops[b + 6] == seg[6]);
    let proto = data_word(arch, nr, args, 8);
    let kind_high = data_word(arch, nr, args, 7);
    let kind_low = data_word(arch, nr, args, 6);
    assert(proto == low_half(args[2]));
    assert(kind_high == high_half(args[1]));
    assert(kind_low == low_half(args[1]));
    lemma_load(prog, ops, e, b, arch, nr, args, nr);
    lemma_branch(prog, ops, e, b + 1, arch, nr, args, proto);
    lemma_load(prog, ops, e, b + 2, arch, nr, args, proto);
    lemma_branch(prog, ops, e, b + 3, arch, nr, args, kind_high);
    lemma_load(prog, ops, e, b + 4, arch, nr, args, kind_high);
    lemma_mask(prog, ops, e, b + 5, arch, nr, args, kind_low);
    lemma_branch(prog, ops, e, b + 6, arch, nr, args, kind_low & SOCK_TYPE_MASK);
    lemma_verdict(prog, ops, e, Verdict::Eprotonosupport, arch, nr, args, proto);
    lemma_verdict(prog, ops, e, Verdict::Eafnosupport, arch, nr, args, kind_high);
    lemma_verdict(prog, ops, e, Verdict::Eafnosupport, arch, nr, args, kind_low & SOCK_TYPE_MASK);
}

/// Through the family checks, whatever is in the accumulator.
#[verifier::spinoff_prover]
#[verifier::rlimit(40)]
proof fn lemma_socket_family(prog: Seq<Instruction>, ops: Seq<Pending>, abi: &SyscallAbi, c: int, nr: u32, args: Seq<u64>, acc: u32)
    requires
        prog == finished(ops, abi.errnos),
        ops.len() + 6 <= 255,
        sits_at(ops, c, domain_ops(abi)),
    ensures
        run_from(prog, abi.audit_arch, nr, args, c, acc)
            == Some(verdict_action(family_verdict(abi, args[0], args[2]), abi.errnos)),
{
    let e = abi.errnos;
    let arch = abi.audit_arch;
    let seg = domain_ops(abi);
    assert(ops[c + 0] == seg[0]);
    assert(ops[c + 1] == seg[1]);
    assert(ops[c + 2] == seg[2]);
    assert(ops[c + 3] == seg[3]);
    assert(ops[c + 4] == seg[4]);
    assert(ops[c + 5] == seg[5]);
    assert(ops[c + 6] == seg[6]);
    assert(ops[c + 7] == seg[7]);
    assert(ops[c + 8] == seg[8]);
    let high = data_word(arch, nr, args, 5);
    let family = data_word(arch, nr, args, 4);
    let proto = data_word(arch, nr, args, 8);
    assert(high == high_half(args[0]));
    assert(family == low_half(args[0]));
    assert(proto == low_half(args[2]));
    lemma_load(prog, ops, e, c, arch, nr, args, acc);
    lemma_branch(prog, ops, e, c + 1, arch, nr, args, high);
    lemma_load(prog, ops, e, c + 2, arch, nr, args, high);
    lemma_branch(prog, ops, e, c + 3, arch, nr, args, family);
    lemma_branch(prog, ops, e, c + 4, arch, nr, args, family);
    lemma_branch(prog, ops, e, c + 5, arch, nr, args, family);
    lemma_branch(prog, ops, e, c + 6, arch, nr, args, family);
    lemma_load(prog, ops, e, c + 7, arch, nr, args, family);
    lemma_branch(prog, ops, e, c + 8, arch, nr, args, proto);
    lemma_verdict(prog, ops, e, Verdict::Eafnosupport, arch, nr, args, high);
    lemma_verdict(prog, ops, e, Verdict::Eafnosupport, arch, nr, args, family);
    lemma_verdict(prog, ops, e, Verdict::Allow, arch, nr, args, family);
    lemma_verdict(prog, ops, e, Verdict::Eafnosupport, arch, nr, args, proto);
    lemma_verdict(prog, ops, e, Verdict::Allow, arch, nr, args, proto);
}

/// Proxy-only: after the common checks, a plain TCP stream over IPv4.
#[verifier::spinoff_prover]
#[verifier::rlimit(40)]
proof fn lemma_socket_proxy_only(prog: Seq<Instruction>, ops: Seq<Pending>, abi: &SyscallAbi, t: int, nr: u32, args: Seq<u64>)
    requires
        prog == finished(ops, abi.errnos),
        ops.len() + 6 <= 255,
        sits_at(ops, t, proxy_only_ops(abi)),
    ensures
        ({
            let sock_type = low_half(args[1]) & SOCK_TYPE_MASK;
            run_from(prog, abi.audit_arch, nr, args, t, sock_type) == Some(verdict_action(
                if sock_type == abi.sock_stream && high_half(args[0]) == 0 && low_half(args[0]) == abi.af_inet {
                    Verdict::Allow
                } else {
                    Verdict::Eafnosupport
                },
                abi.errnos,
            ))
        }),
{
    let e = abi.errnos;
    let arch = abi.audit_arch;
    let seg = proxy_only_ops(abi);
    assert(ops[t + 0] == seg[0]);
    assert(ops[t + 1] == seg[1]);
    assert(ops[t + 2] == seg[2]);
    assert(ops[t + 3] == seg[3]);
    assert(ops[t + 4] == seg[4]);
    let sock_type = low_half(args[1]) & SOCK_TYPE_MASK;
    let high = data_word(arch, nr, args, 5);
    let family = data_word(arch, nr, args, 4);
    assert(high == high_half(args[0]));
    assert(family == low_half(args[0]));
    lemma_branch(prog, ops, e, t, arch, nr, args, sock_type);
    lemma_load(prog, ops, e, t + 1, arch, nr, args, sock_type);
    lemma_branch(prog, ops, e, t + 2, arch, nr, args, high);
    lemma_load(prog, ops, e, t + 3, arch, nr, args, high);
    lemma_branch(prog, ops, e, t + 4, arch, nr, args, family);
    lemma_verdict(prog, ops, e, Verdict::Eafnosupport, arch, nr, args, sock_type);
    lemma_verdict(prog, ops, e, Verdict::Eafnosupport, arch, nr, args, high);
    lemma_verdict(prog, ops, e, Verdict::Eafnosupport, arch, nr, args, family);
    lemma_verdict(prog, ops, e, Verdict::Allow, arch, nr, args, family);
}

/// TCP ports: after the common checks, an internet socket must be a TCP
/// stream; any other family goes on to the family checks.
#[verifier::spinoff_prover]
#[verifier::rlimit(40)]
proof fn lemma_socket_tcp_ports(prog: Seq<Instruction>, ops: Seq<Pending>, abi: &SyscallAbi, t: int, nr: u32, args: Seq<u64>)
    requires
        prog == finished(ops, abi.errnos),
        ops.len() + 6 <= 255,
        sits_at(ops, t, tcp_ports_ops(abi) + domain_ops(abi)),
    ensures
        ({
            let sock_type = low_half(args[1]) & SOCK_TYPE_MASK;
            let family = low_half(args[0]);
            let proto = low_half(args[2]);
            run_from(prog, abi.audit_arch, nr, args, t, sock_type) == Some(verdict_action(
                if high_half(args[0]) != 0 {
                    Verdict::Eafnosupport
                } else if family == abi.af_inet || family == abi.af_inet6 {
                    if sock_type == abi.sock_stream && (proto == 0 || proto == abi.ipproto_tcp) {
                        Verdict::Allow
                    } else {
                        Verdict::Eafnosupport
                    }
                } else {
                    family_verdict(abi, args[0], args[2])
                },
                abi.errnos,
            ))
        }),
{
    let e = abi.errnos;
    let arch = abi.audit_arch;
    let tcp = tcp_ports_ops(abi);
    let seg = tcp + domain_ops(abi);
    assert forall|m: int| 0 <= m < 11 implies #[trigger] ops[t + m] == tcp[m] by {
        assert(ops[t + m] == seg[m]);
    }
    assert(sits_at(ops, t + 11, domain_ops(abi))) by {
        assert forall|m: int| 0 <= m < domain_ops(abi).len() implies #[trigger] ops[(t + 11) + m] == domain_ops(abi)[m] by {
            assert(ops[t + (11 + m)] == seg[11 + m]);
        }
    }
    assert(ops[t + 0] == tcp[0]);
    assert(ops[t + 1] == tcp[1]);
    assert(ops[t + 2] == tcp[2]);
    assert(ops[t + 3] == tcp[3]);
    assert(ops[t + 4] == tcp[4]);
    assert(ops[t + 5] == tcp[5]);
    assert(ops[t + 6] == tcp[6]);
    assert(ops[t + 7] == tcp[7]);
    assert(ops[t + 8] == tcp[8]);
    assert(ops[t + 9] == tcp[9]);
    assert(ops[t + 10] == tcp[10]);
    let sock_type = low_half(args[1]) & SOCK_TYPE_MASK;
    let high = data_word(arch, nr, args, 5);
    let family = data_word(arch, nr, args, 4);
    let kind_low = data_word(arch, nr, args, 6);
    let proto = data_word(arch, nr, args, 8);
    assert(high == high_half(args[0]));
    assert(family == low_half(args[0]));
    assert(kind_low == low_half(args[1]));
    assert(proto == low_half(args[2]));
    lemma_load(prog, ops, e, t, arch, nr, args, sock_type);
    lemma_branch(prog, ops, e, t + 1, arch, nr, args, high);
    lemma_load(prog, ops, e, t + 2, arch, nr, args, high);
    lemma_branch(prog, ops, e, t + 3, arch, nr, args, family);
    lemma_branch(prog, ops, e, t + 4, arch, nr, args, family);
    lemma_load(prog, ops, e, t + 5, arch, nr, args, family);
    lemma_mask(prog, ops, e, t + 6, arch, nr, args, kind_low);
    lemma_branch(prog, ops, e, t + 7, arch, nr, args, sock_type);
    lemma_load(prog, ops, e, t + 8, arch, nr, args, sock_type);
    lemma_branch(prog, ops, e, t + 9, arch, nr, args, proto);
    lemma_branch(prog, ops, e, t + 10, arch, nr, args, proto);
    lemma_socket_family(prog, ops, abi, t + 11, nr, args, family);
    lemma_verdict(prog, ops, e, Verdict::Eafnosupport, arch, nr, args, high);
    lemma_verdict(prog, ops, e, Verdict::Eafnosupport, arch, nr, args, sock_type);
    lemma_verdict(prog, ops, e, Verdict::Allow, arch, nr, args, proto);
    lemma_verdict(prog, ops, e, Verdict::Eafnosupport, arch, nr, args, proto);
}

// ---------------------------------------------------------------------------
// The laws
// ---------------------------------------------------------------------------

/// A process whose syscall numbers come from another architecture's table is
/// killed, whatever it calls: for it any errno would be a lie about which
/// call was refused.
pub proof fn law_foreign_architecture_is_killed(egress: Egress, abi: &SyscallAbi, arch: u32, nr: u32, args: Seq<u64>)
    requires
        abi.wf(),
        arch != abi.audit_arch,
    ensures
        filter_action(program(egress, abi), arch, nr, args) == Some(ACTION_KILL_PROCESS),
{
    lemma_layout(egress, abi);
    let ops = program_ops(egress, abi);
    let n = ops.len() as int;
    let prog = program(egress, abi);
    assert(prog[0] == resolved(ops[0], 0, n));
    assert(prog[1] == resolved(ops[1], 1, n));
    assert(prog[1].jf == n + 5 - 2);
    assert(verdict_at(5) == Verdict::Kill);
    assert(prog[n + 5].code == RET_K && prog[n + 5].k == ACTION_KILL_PROCESS);
    assert(run_from(prog, arch, nr, args, n + 5, arch) == Some(ACTION_KILL_PROCESS));
    assert(run_from(prog, arch, nr, args, 1, arch) == Some(ACTION_KILL_PROCESS));
}

/// Every syscall the table denies is refused with `EPERM`, in every mode.
pub proof fn law_denied_syscalls_are_refused(egress: Egress, abi: &SyscallAbi, nr: u32, args: Seq<u64>)
    requires
        abi.wf(),
        abi.denied@.contains(nr) || abi.denied_arch@.contains(nr),
    ensures
        filter_action(program(egress, abi), abi.audit_arch, nr, args) == Some(errno_action(abi.errnos.eperm)),
{
    lemma_layout(egress, abi);
    lemma_header(egress, abi, nr, args);
    let ops = program_ops(egress, abi);
    let prog = program(egress, abi);
    let d1 = abi.denied@.len() as int;
    lemma_refusals(prog, ops, abi.errnos, 3, abi.denied@, Verdict::Eperm, 0, abi.audit_arch, nr, args);
    if abi.denied@.contains(nr) {
        let m = choose|m: int| 0 <= m < d1 && abi.denied@[m] == nr;
        assert(abi.denied@[m] == nr);
    } else {
        lemma_refusals(prog, ops, abi.errnos, 3 + d1, abi.denied_arch@, Verdict::Eperm, 0, abi.audit_arch, nr, args);
        let m = choose|m: int| 0 <= m < abi.denied_arch@.len() && abi.denied_arch@[m] == nr;
        assert(abi.denied_arch@[m] == nr);
        assert forall|m: int| 0 <= m < d1 implies abi.denied@[m] != nr by {
            if abi.denied@[m] == nr { assert(abi.denied@.contains(nr)); }
        }
    }
}

/// The ring and `clone3` are answered with `ENOSYS`, as a kernel that lacks
/// them would, unless the table already denies the number.
pub proof fn law_missing_syscalls_answer_enosys(egress: Egress, abi: &SyscallAbi, nr: u32, args: Seq<u64>)
    requires
        abi.wf(),
        no_syscall_list().contains(nr),
        !abi.denied@.contains(nr),
        !abi.denied_arch@.contains(nr),
    ensures
        filter_action(program(egress, abi), abi.audit_arch, nr, args) == Some(errno_action(abi.errnos.enosys)),
{
    lemma_layout(egress, abi);
    lemma_header(egress, abi, nr, args);
    let ops = program_ops(egress, abi);
    let prog = program(egress, abi);
    let d1 = abi.denied@.len() as int;
    let d2 = abi.denied_arch@.len() as int;
    assert forall|m: int| 0 <= m < d1 implies abi.denied@[m] != nr by {
        if abi.denied@[m] == nr { assert(abi.denied@.contains(nr)); }
    }
    assert forall|m: int| 0 <= m < d2 implies abi.denied_arch@[m] != nr by {
        if abi.denied_arch@[m] == nr { assert(abi.denied_arch@.contains(nr)); }
    }
    lemma_refusals(prog, ops, abi.errnos, 3, abi.denied@, Verdict::Eperm, 0, abi.audit_arch, nr, args);
    lemma_refusals(prog, ops, abi.errnos, 3 + d1, abi.denied_arch@, Verdict::Eperm, 0, abi.audit_arch, nr, args);
    lemma_refusals(prog, ops, abi.errnos, 3 + d1 + d2, no_syscall_list(), Verdict::Enosys, 0, abi.audit_arch, nr, args);
    let m = choose|m: int| 0 <= m < 4 && no_syscall_list()[m] == nr;
    assert(no_syscall_list()[m] == nr);
}

/// Every call the filter does not single out passes untouched, in every
/// mode and whatever its arguments.
pub proof fn law_other_syscalls_pass(egress: Egress, abi: &SyscallAbi, nr: u32, args: Seq<u64>)
    requires
        abi.wf(),
        !singled_out(abi, nr),
    ensures
        filter_action(program(egress, abi), abi.audit_arch, nr, args) == Some(ACTION_ALLOW),
{
    lemma_to_blocks(egress, abi, nr, args);
    lemma_blocks(egress, abi, nr, args);
    lemma_tail(egress, abi, nr, args);
}


/// A `clone` asking for any new namespace is refused with `EPERM`; any other
/// `clone` passes. (`clone3` never gets here: it is answered with `ENOSYS`.)
#[verifier::spinoff_prover]
#[verifier::rlimit(40)]
pub proof fn law_namespace_clones_are_refused(egress: Egress, abi: &SyscallAbi, args: Seq<u64>)
    requires
        abi.wf(),
        !singled_by_number(abi, abi.sys_clone),
    ensures
        filter_action(program(egress, abi), abi.audit_arch, abi.sys_clone, args) == Some(
            if low_half(args[0]) & CLONE_NEWNS_ANY != 0 { errno_action(abi.errnos.eperm) } else { ACTION_ALLOW },
        ),
{
    let nr = abi.sys_clone;
    lemma_layout(egress, abi);
    lemma_to_blocks(egress, abi, nr, args);
    let ops = program_ops(egress, abi);
    let prog = program(egress, abi);
    let e = abi.errnos;
    let arch = abi.audit_arch;
    let g = 3 + abi.denied@.len() as int + abi.denied_arch@.len() as int + 4;
    let blk = guarded(nr, clone_body());
    assert(ops[g] == blk[0]);
    assert(ops[g + 1] == blk[1]);
    assert(ops[g + 2] == blk[2]);
    lemma_branch(prog, ops, e, g, arch, nr, args, nr);
    lemma_load(prog, ops, e, g + 1, arch, nr, args, nr);
    let flags = data_word(arch, nr, args, 4);
    assert(flags == low_half(args[0]));
    lemma_branch(prog, ops, e, g + 2, arch, nr, args, flags);
    lemma_verdict(prog, ops, e, Verdict::Eperm, arch, nr, args, flags);
    lemma_verdict(prog, ops, e, Verdict::Allow, arch, nr, args, flags);
}

/// An `ioctl` that pushes input into a terminal (`TIOCSTI`, `TIOCLINUX`) is
/// refused with `EPERM`; any other request passes.
#[verifier::spinoff_prover]
#[verifier::rlimit(40)]
pub proof fn law_terminal_injection_is_refused(egress: Egress, abi: &SyscallAbi, args: Seq<u64>)
    requires
        abi.wf(),
        !singled_by_number(abi, abi.sys_ioctl),
        abi.sys_ioctl != abi.sys_clone,
    ensures
        filter_action(program(egress, abi), abi.audit_arch, abi.sys_ioctl, args) == Some(
            if low_half(args[1]) == TIOCSTI || low_half(args[1]) == TIOCLINUX {
                errno_action(abi.errnos.eperm)
            } else {
                ACTION_ALLOW
            },
        ),
{
    let nr = abi.sys_ioctl;
    lemma_layout(egress, abi);
    lemma_to_blocks(egress, abi, nr, args);
    let ops = program_ops(egress, abi);
    let prog = program(egress, abi);
    let e = abi.errnos;
    let arch = abi.audit_arch;
    let blocks = 3 + abi.denied@.len() as int + abi.denied_arch@.len() as int + 4;
    lemma_skip_block(prog, ops, e, blocks, abi.sys_clone, clone_body(), arch, nr, args);
    let g = blocks + 4;
    let blk = guarded(nr, ioctl_body());
    assert(ops[g] == blk[0]);
    assert(ops[g + 1] == blk[1]);
    assert(ops[g + 2] == blk[2]);
    assert(ops[g + 3] == blk[3]);
    lemma_branch(prog, ops, e, g, arch, nr, args, nr);
    lemma_load(prog, ops, e, g + 1, arch, nr, args, nr);
    let request = data_word(arch, nr, args, 6);
    assert(request == low_half(args[1]));
    lemma_branch(prog, ops, e, g + 2, arch, nr, args, request);
    lemma_branch(prog, ops, e, g + 3, arch, nr, args, request);
    lemma_verdict(prog, ops, e, Verdict::Eperm, arch, nr, args, request);
    lemma_verdict(prog, ops, e, Verdict::Allow, arch, nr, args, request);
}

/// An `execveat` of a descriptor with no path (`AT_EMPTY_PATH`) is refused
/// with `EPERM`; one that names a path passes.
#[verifier::spinoff_prover]
#[verifier::rlimit(40)]
pub proof fn law_fileless_exec_is_refused(egress: Egress, abi: &SyscallAbi, args: Seq<u64>)
    requires
        abi.wf(),
        !singled_by_number(abi, abi.sys_execveat),
        abi.sys_execveat != abi.sys_clone,
        abi.sys_execveat != abi.sys_ioctl,
    ensures
        filter_action(program(egress, abi), abi.audit_arch, abi.sys_execveat, args) == Some(
            if low_half(args[4]) & AT_EMPTY_PATH != 0 { errno_action(abi.errnos.eperm) } else { ACTION_ALLOW },
        ),
{
    let nr = abi.sys_execveat;
    lemma_layout(egress, abi);
    lemma_to_blocks(egress, abi, nr, args);
    let ops = program_ops(egress, abi);
    let prog = program(egress, abi);
    let e = abi.errnos;
    let arch = abi.audit_arch;
    let blocks = 3 + abi.denied@.len() as int + abi.denied_arch@.len() as int + 4;
    lemma_skip_block(prog, ops, e, blocks, abi.sys_clone, clone_body(), arch, nr, args);
    lemma_skip_block(prog, ops, e, blocks + 4, abi.sys_ioctl, ioctl_body(), arch, nr, args);
    let g = blocks + 9;
    let blk = guarded(nr, execveat_body());
    assert(ops[g] == blk[0]);
    assert(ops[g + 1] == blk[1]);
    assert(ops[g + 2] == blk[2]);
    lemma_branch(prog, ops, e, g, arch, nr, args, nr);
    lemma_load(prog, ops, e, g + 1, arch, nr, args, nr);
    let flags = data_word(arch, nr, args, 12);
    assert(flags == low_half(args[4]));
    lemma_branch(prog, ops, e, g + 2, arch, nr, args, flags);
    lemma_verdict(prog, ops, e, Verdict::Eperm, arch, nr, args, flags);
    lemma_verdict(prog, ops, e, Verdict::Allow, arch, nr, args, flags);
}


/// `socket(2)` is answered as [`socket_verdict`] says for the run's egress
/// mode: with the proxy as the only egress, a plain TCP stream over IPv4 and
/// nothing else.
#[verifier::spinoff_prover]
#[verifier::rlimit(40)]
pub proof fn law_sockets_follow_the_egress_mode(egress: Egress, abi: &SyscallAbi, args: Seq<u64>)
    requires
        abi.wf(),
        !singled_by_number(abi, abi.sys_socket),
        abi.sys_socket != abi.sys_clone,
        abi.sys_socket != abi.sys_ioctl,
        abi.sys_socket != abi.sys_execveat,
    ensures
        filter_action(program(egress, abi), abi.audit_arch, abi.sys_socket, args)
            == Some(verdict_action(socket_verdict(egress, abi, args[0], args[1], args[2]), abi.errnos)),
{
    let nr = abi.sys_socket;
    lemma_layout(egress, abi);
    lemma_to_blocks(egress, abi, nr, args);
    let ops = program_ops(egress, abi);
    let prog = program(egress, abi);
    let e = abi.errnos;
    let arch = abi.audit_arch;
    let blocks = 3 + abi.denied@.len() as int + abi.denied_arch@.len() as int + 4;
    lemma_skip_block(prog, ops, e, blocks, abi.sys_clone, clone_body(), arch, nr, args);
    lemma_skip_block(prog, ops, e, blocks + 4, abi.sys_ioctl, ioctl_body(), arch, nr, args);
    lemma_skip_block(prog, ops, e, blocks + 9, abi.sys_execveat, execveat_body(), arch, nr, args);
    let g = blocks + 13;
    let sock = socket_ops(egress, abi);
    let blk = guarded(nr, sock);
    assert(ops[g] == blk[0]);
    lemma_branch(prog, ops, e, g, arch, nr, args, nr);
    let b = g + 1;
    assert forall|m: int| 0 <= m < sock.len() implies #[trigger] ops[b + m] == sock[m] by {
        assert(ops[g + (1 + m)] == blk[1 + m]);
    }
    let prelude = socket_prelude(abi);
    let rest = match egress {
        Egress::ProxyOnly => proxy_only_ops(abi),
        Egress::TcpPorts => tcp_ports_ops(abi) + domain_ops(abi),
        Egress::Open => domain_ops(abi),
    };
    assert(sock == prelude + rest);
    assert(sits_at(ops, b, prelude)) by {
        assert forall|m: int| 0 <= m < prelude.len() implies #[trigger] ops[b + m] == prelude[m] by {
            assert(ops[b + m] == sock[m]);
        }
    }
    assert(sits_at(ops, b + 7, rest)) by {
        assert forall|m: int| 0 <= m < rest.len() implies #[trigger] ops[(b + 7) + m] == rest[m] by {
            assert(ops[b + (7 + m)] == sock[7 + m]);
        }
    }
    lemma_socket_prelude(prog, ops, abi, b, nr, args);
    let sock_type = low_half(args[1]) & SOCK_TYPE_MASK;
    match egress {
        Egress::ProxyOnly => lemma_socket_proxy_only(prog, ops, abi, b + 7, nr, args),
        Egress::TcpPorts => lemma_socket_tcp_ports(prog, ops, abi, b + 7, nr, args),
        Egress::Open => lemma_socket_family(prog, ops, abi, b + 7, nr, args, sock_type),
    }
}

} // verus!
